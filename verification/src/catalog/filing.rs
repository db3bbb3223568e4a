//! Storing an info dictionary under its identities.

use crate::bencode::{
    decoder_tokens, dictionary_end, read_tokens, skip_dictionary, token_models, Token, TokenModel,
};
use crate::catalog::requests::same_identity;
use crate::jobs::model::StoreError;
use crate::metainfo::analysis::{analyze, judge, MAX_BYTES, MAX_DEPTH, PARSE_BUDGET};
use crate::metainfo::identity::{
    identities, match_identity, names_v2, sha1_digest, sha256_digest, SwarmKey, TorrentIdentity,
};
use crate::order::bytes_equal;
use vstd::prelude::*;

verus! {

/// How an info dictionary is known to belong to a swarm.
#[derive(Clone, Copy, Debug, PartialEq, Eq, Structural)]
pub enum Verification {
    /// By the whole digest of the first version.
    V1Full,
    /// By the first bytes of the digest of the second version.
    V2Prefix,
    /// By the other digest of a dictionary that has both.
    HybridDerived,
}

impl Verification {
    /// The label.
    pub open spec fn text(self) -> Seq<char> {
        match self {
            Verification::V1Full => "v1_full"@,
            Verification::V2Prefix => "v2_prefix"@,
            Verification::HybridDerived => "hybrid_derived"@,
        }
    }

    /// What stands after both: only what was checked replaces anything.
    pub open spec fn merged(self, new: Verification) -> Verification {
        if new is HybridDerived {
            self
        } else {
            new
        }
    }

    /// The label.
    pub fn label(self) -> (label: &'static str)
        ensures
            label@ == self.text(),
    {
        match self {
            Verification::V1Full => "v1_full",
            Verification::V2Prefix => "v2_prefix",
            Verification::HybridDerived => "hybrid_derived",
        }
    }

    /// What stands after both.
    pub fn merge(self, new: Verification) -> (merged: Verification)
        ensures
            merged == self.merged(new),
    {
        match new {
            Verification::HybridDerived => self,
            _ => new,
        }
    }
}

/// An identity under which an info dictionary is stored.
#[derive(Clone, Copy, Debug, PartialEq, Eq)]
pub struct FiledIdentity {
    pub identity: TorrentIdentity,
    pub swarm: SwarmKey,
    pub verification: Verification,
    /// Whether the job for its swarm is another one, and done with this.
    pub supersedes: bool,
}

/// Whether two identities are the same.
pub open spec fn is_same(a: TorrentIdentity, b: TorrentIdentity) -> bool {
    (a is V1) == (b is V1) && a.digest() == b.digest()
}

/// How an identity is known, where `source` is the one that the peers were asked for.
pub open spec fn verification_of(
    identity: TorrentIdentity,
    source: TorrentIdentity,
) -> Verification {
    if !is_same(identity, source) {
        Verification::HybridDerived
    } else if source is V1 {
        Verification::V1Full
    } else {
        Verification::V2Prefix
    }
}

/// Whether an identity is stored as it should be.
pub open spec fn is_filed(
    filed: FiledIdentity,
    identity: TorrentIdentity,
    source: TorrentIdentity,
    key: SwarmKey,
) -> bool {
    &&& filed.identity == identity
    &&& filed.swarm.0@ == identity.digest().take(20)
    &&& filed.verification == verification_of(identity, source)
    &&& filed.supersedes == (identity.digest().take(20) != key.0@)
}

/// How each identity is stored.
pub fn filed_identities(
    all: &Vec<TorrentIdentity>,
    source: TorrentIdentity,
    key: SwarmKey,
) -> (filed: Vec<FiledIdentity>)
    ensures
        filed@.len() == all@.len(),
        forall|i: int|
            0 <= i < all@.len() ==> is_filed(#[trigger] filed@[i], all@[i], source, key),
{
    let mut filed: Vec<FiledIdentity> = Vec::new();
    for i in 0..all.len()
        invariant
            filed@.len() == i,
            forall|k: int| 0 <= k < i ==> is_filed(#[trigger] filed@[k], all@[k], source, key),
    {
        let identity = all[i];
        let swarm = identity.swarm_key();
        let verification = if same_identity(identity, source) {
            match source {
                TorrentIdentity::V1(_) => Verification::V1Full,
                TorrentIdentity::V2(_) => Verification::V2Prefix,
            }
        } else {
            Verification::HybridDerived
        };
        let supersedes = !bytes_equal(
            vstd::array::array_as_slice(&swarm.0),
            vstd::array::array_as_slice(&key.0),
        );
        filed.push(FiledIdentity { identity, swarm, verification, supersedes });
    }
    filed
}

/// Why bytes of some length, with some tokens, are not stored as an info dictionary.
pub open spec fn refusal(len: int, answers: bool, tokens: Seq<TokenModel>) -> Option<StoreError> {
    if len == 0 || len > MAX_BYTES {
        Some(StoreError::MetadataSize)
    } else if !answers {
        Some(StoreError::Conflict)
    } else if dictionary_end(tokens) is None {
        Some(StoreError::MetadataDictionary)
    } else if dictionary_end(tokens)->0 != tokens.len() {
        Some(StoreError::MetadataTrailing)
    } else {
        None
    }
}

/// Why bytes of some length, with some tokens, are not stored as an info dictionary. `answers` says
/// whether they have the digest that was asked for.
pub fn check_filing(len: usize, answers: bool, tokens: &[Token]) -> (refused: Option<StoreError>)
    ensures
        refused == refusal(len as int, answers, token_models(tokens@)),
{
    if len == 0 || len > MAX_BYTES {
        return Some(StoreError::MetadataSize);
    }
    if !answers {
        return Some(StoreError::Conflict);
    }
    match skip_dictionary(tokens) {
        None => Some(StoreError::MetadataDictionary),
        Some(behind) => if behind != tokens.len() {
            Some(StoreError::MetadataTrailing)
        } else {
            None
        },
    }
}

/// Whether bytes answer to a key by one of their digests.
pub open spec fn answers(info: Seq<u8>, key: SwarmKey) -> bool {
    sha1_digest(info) == key.0@ || (names_v2(decoder_tokens(info, MAX_DEPTH as nat))
        && sha256_digest(info).take(20) == key.0@)
}

/// Whether an identity is that by which bytes answer to a key.
pub open spec fn is_source(source: TorrentIdentity, info: Seq<u8>, key: SwarmKey) -> bool {
    if sha1_digest(info) == key.0@ {
        source is V1 && source.digest() == sha1_digest(info)
    } else {
        source is V2 && source.digest() == sha256_digest(info)
    }
}

/// Whether bytes are a valid info dictionary of both versions.
pub open spec fn is_hybrid(info: Seq<u8>) -> bool {
    let (format, outcome) = judge(
        crate::bencode::read_document(
            decoder_tokens(info, MAX_DEPTH as nat),
            PARSE_BUDGET as int,
        ),
    );
    format is Hybrid && outcome is Ok
}

/// Whether identities are those of bytes that were asked for by `source`: both of a valid hybrid,
/// else the source alone.
pub open spec fn are_identities(
    all: Seq<TorrentIdentity>,
    info: Seq<u8>,
    source: TorrentIdentity,
) -> bool {
    if is_hybrid(info) {
        &&& all.len() == 2
        &&& all[0] is V1
        &&& all[0].digest() == sha1_digest(info)
        &&& all[1] is V2
        &&& all[1].digest() == sha256_digest(info)
    } else {
        all == seq![source]
    }
}

/// How bytes are stored that peers gave for a key, or why they are not.
pub fn prepare_filing(info: &[u8], key: SwarmKey) -> (result: Result<
    Vec<FiledIdentity>,
    StoreError,
>)
    ensures
        match refusal(
            info@.len() as int,
            answers(info@, key),
            decoder_tokens(info@, MAX_DEPTH as nat),
        ) {
            Some(error) => result == Err::<Vec<FiledIdentity>, StoreError>(error),
            None => result is Ok && exists|all: Seq<TorrentIdentity>, source: TorrentIdentity|
                {
                    &&& is_source(source, info@, key)
                    &&& #[trigger] are_identities(all, info@, source)
                    &&& result->Ok_0@.len() == all.len()
                    &&& forall|i: int|
                        0 <= i < all.len() ==> is_filed(
                            #[trigger] result->Ok_0@[i],
                            all[i],
                            source,
                            key,
                        )
                },
        },
{
    if info.len() == 0 || info.len() > MAX_BYTES {
        return Err(StoreError::MetadataSize);
    }
    let found = match_identity(info, key);
    let tokens = read_tokens(info, MAX_DEPTH);
    match check_filing(info.len(), found.is_some(), tokens.as_slice()) {
        Some(error) => Err(error),
        None => match found {
            None => Err(StoreError::Conflict),
            Some(source) => {
                let analysis = analyze(info);
                let all = identities(info, source, &analysis);
                let filed = filed_identities(&all, source, key);
                proof {
                    assert(is_hybrid(info@) == (analysis.status is Valid && analysis.format
                        is Hybrid));
                    assert(are_identities(all@, info@, source));
                }
                Ok(filed)
            },
        },
    }
}

/// A stored row that an identity leads to: its number, and whether it holds the same bytes.
#[derive(Clone, Copy, Debug, PartialEq, Eq, Structural)]
pub struct FoundRow {
    pub id: i64,
    pub same: bool,
}

/// What becomes of the rows that are there: the one that stays, and those that are merged into it.
#[derive(Debug, PartialEq, Eq)]
pub struct Resolution {
    pub keep: Option<i64>,
    pub merged: Vec<i64>,
}

/// Whether some row holds other bytes.
pub open spec fn any_differs(found: Seq<Option<FoundRow>>) -> bool {
    exists|i: int| 0 <= i < found.len() && #[trigger] found[i] is Some && !found[i]->0.same
}

/// The first row that was found.
pub open spec fn first_row(found: Seq<Option<FoundRow>>) -> Option<i64>
    decreases found.len(),
{
    if found.len() == 0 {
        None
    } else {
        match first_row(found.drop_last()) {
            Some(id) => Some(id),
            None => match found.last() {
                Some(row) => Some(row.id),
                None => None,
            },
        }
    }
}

/// The rows that were found besides the first.
pub open spec fn other_rows(found: Seq<Option<FoundRow>>) -> Seq<i64>
    decreases found.len(),
{
    if found.len() == 0 {
        Seq::empty()
    } else {
        let rest = found.drop_last();
        match (first_row(rest), found.last()) {
            (Some(keep), Some(row)) => if row.id != keep {
                other_rows(rest).push(row.id)
            } else {
                other_rows(rest)
            },
            _ => other_rows(rest),
        }
    }
}

/// What becomes of the rows that the identities lead to. Rows with other bytes are never replaced.
pub fn resolve_rows(found: &Vec<Option<FoundRow>>) -> (result: Result<Resolution, StoreError>)
    ensures
        any_differs(found@) ==> result == Err::<Resolution, StoreError>(StoreError::Conflict),
        !any_differs(found@) ==> result is Ok && result->Ok_0.keep == first_row(found@)
            && result->Ok_0.merged@ == other_rows(found@),
{
    let mut keep: Option<i64> = None;
    let mut merged: Vec<i64> = Vec::new();
    for i in 0..found.len()
        invariant
            forall|k: int| 0 <= k < i && #[trigger] found@[k] is Some ==> found@[k]->0.same,
            keep == first_row(found@.take(i as int)),
            merged@ == other_rows(found@.take(i as int)),
    {
        proof {
            assert(found@.take(i + 1).drop_last() =~= found@.take(i as int));
            assert(found@.take(i + 1).last() == found@[i as int]);
        }
        if let Some(row) = found[i] {
            if !row.same {
                assert(any_differs(found@));
                return Err(StoreError::Conflict);
            }
            match keep {
                Some(kept) => {
                    if kept != row.id {
                        merged.push(row.id);
                    }
                },
                None => {
                    keep = Some(row.id);
                },
            }
        }
    }
    assert(found@.take(found@.len() as int) =~= found@);
    Ok(Resolution { keep, merged })
}

/// A stored info dictionary.
pub struct StoredInfo {
    pub hash: Seq<u8>,
    pub info: Seq<u8>,
    pub fetched_at: int,
}

/// All that is stored: the dictionaries by number, the numbers by identity, and how the dictionaries
/// of a swarm are known.
#[verifier::ext_equal]
pub struct Library {
    pub metadata: Map<int, StoredInfo>,
    pub identities: Map<(bool, Seq<u8>), int>,
    pub swarms: Map<(Seq<u8>, int), Verification>,
}

/// The version and the digest of an identity.
pub open spec fn identity_key(identity: TorrentIdentity) -> (bool, Seq<u8>) {
    (identity is V2, identity.digest())
}

impl Library {
    /// A row merged into another with the same bytes. The earlier time stays.
    pub open spec fn merged(self, keep: int, remove: int) -> Library {
        Library {
            metadata: self.metadata.remove(remove).insert(
                keep,
                StoredInfo {
                    fetched_at: if self.metadata[remove].fetched_at
                        < self.metadata[keep].fetched_at {
                        self.metadata[remove].fetched_at
                    } else {
                        self.metadata[keep].fetched_at
                    },
                    ..self.metadata[keep]
                },
            ),
            identities: self.identities.map_values(
                |id: int|
                    if id == remove {
                        keep
                    } else {
                        id
                    },
            ),
            swarms: self.swarms.remove_keys(
                Set::new(|key: (Seq<u8>, int)| key.1 == remove),
            ).union_prefer_right(
                Map::new(
                    |key: (Seq<u8>, int)|
                        key.1 == keep && self.swarms.contains_key((key.0, remove))
                            && !self.swarms.contains_key(key),
                    |key: (Seq<u8>, int)| self.swarms[(key.0, remove)],
                ),
            ),
        }
    }

    /// Rows merged into another, one after the other.
    pub open spec fn merged_all(self, keep: int, remove: Seq<i64>) -> Library
        decreases remove.len(),
    {
        if remove.len() == 0 {
            self
        } else {
            self.merged_all(keep, remove.drop_last()).merged(keep, remove.last() as int)
        }
    }

    /// An identity leads to a row, unless it leads somewhere already.
    pub open spec fn entered(self, filed: FiledIdentity, id: int) -> Library {
        let key = identity_key(filed.identity);
        let swarm = (filed.swarm.0@, id);
        Library {
            identities: if self.identities.contains_key(key) {
                self.identities
            } else {
                self.identities.insert(key, id)
            },
            swarms: self.swarms.insert(
                swarm,
                if self.swarms.contains_key(swarm) {
                    self.swarms[swarm].merged(filed.verification)
                } else {
                    filed.verification
                },
            ),
            ..self
        }
    }

    /// Identities lead to a row, one after the other.
    pub open spec fn entered_all(self, filed: Seq<FiledIdentity>, id: int) -> Library
        decreases filed.len(),
    {
        if filed.len() == 0 {
            self
        } else {
            self.entered_all(filed.drop_last(), id).entered(filed.last(), id)
        }
    }

    /// An info dictionary is stored. `fresh` is the number of a new row, if one is needed.
    pub open spec fn filed(
        self,
        info: Seq<u8>,
        at: int,
        fresh: int,
        keep: Option<i64>,
        remove: Seq<i64>,
        filed: Seq<FiledIdentity>,
    ) -> Library {
        let hash = filed[0].identity.digest();
        let id = row_number(keep, fresh);
        let settled = match keep {
            Some(keep) => self.merged_all(keep as int, remove),
            None => Library {
                metadata: self.metadata.insert(fresh, StoredInfo { hash, info, fetched_at: at }),
                ..self
            },
        };
        Library {
            metadata: settled.metadata.insert(
                id,
                StoredInfo { hash, ..settled.metadata[id] },
            ),
            ..settled
        }.entered_all(filed, id)
    }

    /// Whether every identity leads to a row.
    pub open spec fn well_formed(self) -> bool {
        forall|key: (bool, Seq<u8>)| #[trigger]
            self.identities.contains_key(key) ==> self.metadata.contains_key(self.identities[key])
    }

    /// Whether a lookup of an identity gave what is stored: nothing where it leads nowhere, and the
    /// row that it leads to.
    pub open spec fn gives(
        self,
        identity: TorrentIdentity,
        info: Seq<u8>,
        found: Option<FoundRow>,
    ) -> bool {
        let key = identity_key(identity);
        match found {
            None => !self.identities.contains_key(key),
            Some(row) => {
                &&& self.metadata.contains_key(row.id as int)
                &&& row.same == (self.metadata[row.id as int].info == info)
                &&& self.identities.contains_key(key) ==> self.identities[key] == row.id
            },
        }
    }
}

/// The number of the row that holds the bytes.
pub open spec fn row_number(keep: Option<i64>, fresh: int) -> int {
    match keep {
        Some(keep) => keep as int,
        None => fresh,
    }
}

/// The rows besides the first are others, and each was found.
proof fn lemma_rows(found: Seq<Option<FoundRow>>, id: i64)
    ensures
        other_rows(found).contains(id) ==> first_row(found) != Some(id) && exists|i: int|
            0 <= i < found.len() && #[trigger] found[i] is Some && found[i]->0.id == id,
        first_row(found) == Some(id) ==> exists|i: int|
            0 <= i < found.len() && #[trigger] found[i] is Some && found[i]->0.id == id,
        forall|i: int|
            0 <= i < found.len() && #[trigger] found[i] is Some && found[i]->0.id == id
                ==> first_row(found) == Some(id) || other_rows(found).contains(id),
        first_row(found) is None ==> other_rows(found).len() == 0,
    decreases found.len(),
{
    if found.len() > 0 {
        let rest = found.drop_last();
        lemma_rows(rest, id);
        let last = found.len() - 1;
        let here = other_rows(found);
        let before = other_rows(rest);
        if here.contains(id) {
            let k = choose|k: int| 0 <= k < here.len() && here[k] == id;
            if k < before.len() {
                assert(before[k] == id);
                let i = choose|i: int|
                    0 <= i < rest.len() && #[trigger] rest[i] is Some && rest[i]->0.id == id;
                assert(found[i] == rest[i]);
            } else {
                assert(found[last] is Some && found[last]->0.id == id);
            }
        }
        if first_row(found) == Some(id) {
            if first_row(rest) == Some(id) {
                let i = choose|i: int|
                    0 <= i < rest.len() && #[trigger] rest[i] is Some && rest[i]->0.id == id;
                assert(found[i] == rest[i]);
            } else {
                assert(found[last] is Some && found[last]->0.id == id);
            }
        }
        assert forall|i: int|
            0 <= i < found.len() && #[trigger] found[i] is Some && found[i]->0.id == id implies
            first_row(found) == Some(id) || other_rows(found).contains(id) by {
            if i < last {
                assert(rest[i] == found[i]);
                if before.contains(id) {
                    let k = choose|k: int| 0 <= k < before.len() && before[k] == id;
                    assert(here[k] == id);
                }
            } else if first_row(rest) is Some && first_row(rest) != Some(id) {
                assert(here[here.len() - 1] == id);
            }
        }
    }
}

/// After a merge the identities of the merged rows lead to the one that stays, and every other row
/// is as it was.
proof fn lemma_merged_all(library: Library, keep: int, remove: Seq<i64>)
    requires
        library.metadata.contains_key(keep),
        !remove.contains(keep as i64),
        i64::MIN <= keep <= i64::MAX,
    ensures
        ({
            let after = library.merged_all(keep, remove);
            &&& after.metadata.contains_key(keep)
            &&& after.metadata[keep].info == library.metadata[keep].info
            &&& after.metadata[keep].hash == library.metadata[keep].hash
            &&& forall|key: (bool, Seq<u8>)| #[trigger]
                after.identities.contains_key(key) == library.identities.contains_key(key)
            &&& forall|key: (bool, Seq<u8>)| #[trigger]
                after.identities.contains_key(key) ==> after.identities[key] == (if exists|i: int|
                    0 <= i < remove.len() && #[trigger] remove[i] == library.identities[key] {
                    keep
                } else {
                    library.identities[key]
                })
            &&& forall|id: int|
                id != keep && !(exists|i: int| 0 <= i < remove.len() && #[trigger] remove[i] == id)
                    ==> #[trigger] after.metadata.contains_key(id)
                    == library.metadata.contains_key(id) && after.metadata[id]
                    == library.metadata[id]
        }),
    decreases remove.len(),
{
    if remove.len() > 0 {
        let rest = remove.drop_last();
        assert forall|i: int| 0 <= i < rest.len() implies rest[i] != keep as i64 by {
            assert(remove[i] == rest[i]);
            assert(remove.contains(remove[i]));
        }
        lemma_merged_all(library, keep, rest);
        let before = library.merged_all(keep, rest);
        let last = remove.last() as int;
        assert(remove[remove.len() - 1] == remove.last());
        assert(remove.contains(remove.last()));
        let after = before.merged(keep, last);
        assert(after == library.merged_all(keep, remove));
        assert forall|key: (bool, Seq<u8>)| #[trigger]
            after.identities.contains_key(key) implies after.identities[key] == (if exists|i: int|
            0 <= i < remove.len() && #[trigger] remove[i] == library.identities[key] {
            keep
        } else {
            library.identities[key]
        }) by {
            let old_id = library.identities[key];
            assert(before.identities.contains_key(key));
            if exists|i: int| 0 <= i < rest.len() && #[trigger] rest[i] == old_id {
                let i = choose|i: int| 0 <= i < rest.len() && #[trigger] rest[i] == old_id;
                assert(remove[i] == old_id);
            } else if exists|i: int| 0 <= i < remove.len() && #[trigger] remove[i] == old_id {
                let i = choose|i: int| 0 <= i < remove.len() && #[trigger] remove[i] == old_id;
                if i < rest.len() {
                    assert(rest[i] == old_id);
                }
            }
        }
        assert forall|id: int|
            id != keep && !(exists|i: int| 0 <= i < remove.len() && #[trigger] remove[i] == id)
                implies #[trigger] after.metadata.contains_key(id) == library.metadata.contains_key(
            id,
        ) && after.metadata[id] == library.metadata[id] by {
            assert forall|i: int| 0 <= i < rest.len() implies #[trigger] rest[i] != id by {
                assert(remove[i] == rest[i]);
            }
            assert(remove[remove.len() - 1] != id);
            assert(before.metadata.contains_key(id) == library.metadata.contains_key(id));
        }
    }
}

/// Identities that lead nowhere lead to the row, and every other one stays.
proof fn lemma_entered_all(library: Library, filed: Seq<FiledIdentity>, id: int)
    ensures
        ({
            let after = library.entered_all(filed, id);
            &&& after.metadata == library.metadata
            &&& forall|key: (bool, Seq<u8>)| #[trigger]
                library.identities.contains_key(key) ==> after.identities.contains_key(key)
                    && after.identities[key] == library.identities[key]
            &&& forall|i: int|
                0 <= i < filed.len() ==> after.identities.contains_key(
                    identity_key((#[trigger] filed[i]).identity),
                )
            &&& forall|key: (bool, Seq<u8>)| #[trigger]
                after.identities.contains_key(key) && !library.identities.contains_key(key)
                    ==> after.identities[key] == id
        }),
    decreases filed.len(),
{
    if filed.len() > 0 {
        let rest = filed.drop_last();
        lemma_entered_all(library, rest, id);
        let before = library.entered_all(rest, id);
        let after = before.entered(filed.last(), id);
        assert forall|i: int| 0 <= i < filed.len() implies after.identities.contains_key(
            identity_key((#[trigger] filed[i]).identity),
        ) by {
            if i < rest.len() {
                assert(rest[i] == filed[i]);
                assert(before.identities.contains_key(identity_key(rest[i].identity)));
            }
        }
        assert forall|key: (bool, Seq<u8>)| #[trigger]
            library.identities.contains_key(key) implies after.identities.contains_key(key)
            && after.identities[key] == library.identities[key] by {
            assert(before.identities.contains_key(key));
        }
    }
}

/// What was stored can be found: afterwards each of its identities leads to a row with just these
/// bytes. Nothing is overwritten: every row but the merged ones holds the bytes that it held.
pub proof fn lemma_filed(
    library: Library,
    info: Seq<u8>,
    at: int,
    fresh: int,
    found: Seq<Option<FoundRow>>,
    filed: Seq<FiledIdentity>,
    which: int,
)
    requires
        library.well_formed(),
        !library.metadata.contains_key(fresh),
        filed.len() == found.len(),
        0 <= which < filed.len(),
        forall|i: int|
            0 <= i < filed.len() ==> library.gives(
                (#[trigger] filed[i]).identity,
                info,
                found[i],
            ),
        !any_differs(found),
    ensures
        ({
            let after = library.filed(
                info,
                at,
                fresh,
                first_row(found),
                other_rows(found),
                filed,
            );
            let key = identity_key(filed[which].identity);
            &&& after.identities.contains_key(key)
            &&& after.metadata.contains_key(after.identities[key])
            &&& after.metadata[after.identities[key]].info == info
            &&& forall|id: int| #[trigger]
                library.metadata.contains_key(id) && after.metadata.contains_key(id)
                    ==> after.metadata[id].info == library.metadata[id].info
            &&& forall|id: int|
                library.metadata.contains_key(id) && !(#[trigger] after.metadata.contains_key(id))
                    ==> library.metadata[id].info == info
        }),
{
    let keep = first_row(found);
    let remove = other_rows(found);
    let id = row_number(keep, fresh);
    let hash = filed[0].identity.digest();
    let settled = match keep {
        Some(keep) => library.merged_all(keep as int, remove),
        None => Library {
            metadata: library.metadata.insert(fresh, StoredInfo { hash, info, fetched_at: at }),
            ..library
        },
    };
    let named = Library {
        metadata: settled.metadata.insert(id, StoredInfo { hash, ..settled.metadata[id] }),
        ..settled
    };
    let after = named.entered_all(filed, id);
    lemma_entered_all(named, filed, id);
    let key = identity_key(filed[which].identity);
    assert(after.identities.contains_key(key));
    match keep {
        Some(kept) => {
            lemma_rows(found, kept);
            let i = choose|i: int|
                0 <= i < found.len() && #[trigger] found[i] is Some && found[i]->0.id == kept;
            assert(library.gives(filed[i].identity, info, found[i]));
            assert(found[i]->0.same);
            lemma_merged_all(library, kept as int, remove);
            assert(library.gives(filed[which].identity, info, found[which]));
            if library.identities.contains_key(key) {
                let row = found[which]->0;
                lemma_rows(found, row.id);
                assert(settled.identities.contains_key(key));
                if remove.contains(row.id) {
                    let k = choose|k: int| 0 <= k < remove.len() && remove[k] == row.id;
                    assert(remove[k] == library.identities[key]);
                }
                assert(settled.identities[key] == kept);
            } else {
                assert(!settled.identities.contains_key(key));
                assert(!named.identities.contains_key(key));
            }
            assert forall|other: int| #[trigger]
                library.metadata.contains_key(other) && after.metadata.contains_key(other) implies
                after.metadata[other].info == library.metadata[other].info by {
                if other != kept {
                    if exists|k: int| 0 <= k < remove.len() && #[trigger] remove[k] == other {
                        let k = choose|k: int|
                            0 <= k < remove.len() && #[trigger] remove[k] == other;
                        lemma_gone(library, kept as int, remove, k);
                    } else {
                        assert(settled.metadata.contains_key(other));
                    }
                }
            }
            assert forall|other: int|
                library.metadata.contains_key(other) && !(#[trigger] after.metadata.contains_key(
                    other,
                )) implies library.metadata[other].info == info by {
                assert(!settled.metadata.contains_key(other));
                if other != kept {
                    if exists|k: int| 0 <= k < remove.len() && #[trigger] remove[k] == other {
                        let k = choose|k: int|
                            0 <= k < remove.len() && #[trigger] remove[k] == other;
                        lemma_rows(found, remove[k]);
                        assert(remove.contains(remove[k]));
                        let i = choose|i: int|
                            0 <= i < found.len() && #[trigger] found[i] is Some && found[i]->0.id
                                == remove[k];
                        assert(library.gives(filed[i].identity, info, found[i]));
                        assert(found[i]->0.same);
                    }
                }
            }
        },
        None => {
            assert(library.gives(filed[which].identity, info, found[which]));
            if found[which] is Some {
                lemma_rows(found, found[which]->0.id);
            }
            assert(!named.identities.contains_key(key));
        },
    }
}

/// A merged row is gone.
proof fn lemma_gone(library: Library, keep: int, remove: Seq<i64>, k: int)
    requires
        0 <= k < remove.len(),
        library.metadata.contains_key(keep),
        !remove.contains(keep as i64),
        i64::MIN <= keep <= i64::MAX,
    ensures
        !library.merged_all(keep, remove).metadata.contains_key(remove[k] as int),
    decreases remove.len(),
{
    assert(remove.contains(remove[k]));
    if k < remove.len() - 1 {
        let rest = remove.drop_last();
        assert forall|i: int| 0 <= i < rest.len() implies rest[i] != keep as i64 by {
            assert(remove[i] == rest[i]);
            assert(remove.contains(remove[i]));
        }
        lemma_gone(library, keep, rest, k);
    }
}

/// Bytes are refused for their size, from one byte to four mebibytes, before anything else; then
/// where they do not answer the key, then where they are no dictionary, and last where something
/// follows it.
pub proof fn lemma_refusal(len: int, answers: bool, tokens: Seq<TokenModel>)
    requires
        0 <= len,
    ensures
        ({
            let refused = refusal(len, answers, tokens);
            let sized = 1 <= len <= 4 * 1024 * 1024;
            let end = dictionary_end(tokens);
            &&& refused == Some(StoreError::MetadataSize) <==> !sized
            &&& refused == Some(StoreError::Conflict) <==> sized && !answers
            &&& refused == Some(StoreError::MetadataDictionary) <==> sized && answers && end is None
            &&& refused == Some(StoreError::MetadataTrailing) <==> sized && answers && end is Some
                && end->0 != tokens.len()
            &&& refused is None <==> sized && answers && end == Some(tokens.len() as int)
        }),
{
}

/// Bytes answer a key with their digest of the first version, or where they name the second version
/// with the beginning of that of the second. The first version is taken where both would do.
pub proof fn lemma_answers(info: Seq<u8>, key: SwarmKey, source: TorrentIdentity)
    ensures
        sha1_digest(info) == key.0@ ==> answers(info, key),
        answers(info, key) && sha1_digest(info) != key.0@ ==> sha256_digest(info).take(20) == key.0@
            && names_v2(decoder_tokens(info, 64)),
        names_v2(decoder_tokens(info, 64)) && sha256_digest(info).take(20) == key.0@ ==> answers(
            info,
            key,
        ),
        is_source(source, info, key) ==> match source {
            TorrentIdentity::V1(hash) => hash.0@ == sha1_digest(info) && hash.0@ == key.0@,
            TorrentIdentity::V2(hash) => hash.0@ == sha256_digest(info) && sha1_digest(info)
                != key.0@,
        },
{
}

/// A valid hybrid has both digests of its bytes as identities, the first version first. Anything else
/// has the one that its key asked for.
pub proof fn lemma_identities(all: Seq<TorrentIdentity>, info: Seq<u8>, source: TorrentIdentity)
    requires
        are_identities(all, info, source),
    ensures
        ({
            let (format, outcome) = judge(
                crate::bencode::read_document(decoder_tokens(info, 64), 67_108_864),
            );
            if format is Hybrid && outcome is Ok {
                &&& all.len() == 2
                &&& all[0] matches TorrentIdentity::V1(hash) && hash.0@ == sha1_digest(info)
                &&& all[1] matches TorrentIdentity::V2(hash) && hash.0@ == sha256_digest(info)
            } else {
                all.len() == 1 && all[0] == source
            }
        }),
{
}

/// An identity is filed under the first twenty bytes of its digest. It is known in full or by its
/// beginning where it is what the key asked for, and else derived; it takes the place of the key's
/// job where its own swarm is another.
pub proof fn lemma_filing(
    filed: FiledIdentity,
    identity: TorrentIdentity,
    source: TorrentIdentity,
    key: SwarmKey,
)
    requires
        is_filed(filed, identity, source, key),
    ensures
        filed.identity == identity,
        filed.swarm.0@ == identity.digest().take(20),
        filed.supersedes <==> filed.swarm.0@ != key.0@,
        identity == source && source is V1 ==> filed.verification is V1Full,
        identity == source && source is V2 ==> filed.verification is V2Prefix,
        identity is V1 != source is V1 || identity.digest() != source.digest()
            ==> filed.verification is HybridDerived,
        (identity matches TorrentIdentity::V1(hash) ==> identity.digest() == hash.0@),
        (identity matches TorrentIdentity::V2(hash) ==> identity.digest() == hash.0@),
{
}

/// What was verified is never replaced by what is only derived; anything else is.
pub proof fn lemma_verification(known: Verification, new: Verification)
    ensures
        known.merged(new) is HybridDerived ==> known is HybridDerived && new is HybridDerived,
        !(new is HybridDerived) ==> known.merged(new) == new,
        new is HybridDerived ==> known.merged(new) == known,
        Verification::V1Full.text() == "v1_full"@,
        Verification::V2Prefix.text() == "v2_prefix"@,
        Verification::HybridDerived.text() == "hybrid_derived"@,
{
}

/// The first row that is found stays; each later one with another number is merged into it, and one
/// with other bytes stands against both.
pub proof fn lemma_rows_resolved(found: Seq<Option<FoundRow>>, next: Option<FoundRow>)
    ensures
        first_row(Seq::empty()) is None,
        other_rows(Seq::empty()).len() == 0,
        !any_differs(Seq::empty()),
        first_row(found.push(next)) == if first_row(found) is Some {
            first_row(found)
        } else if next is Some {
            Some(next->0.id)
        } else {
            None
        },
        other_rows(found.push(next)) == if next is Some && first_row(found) is Some
            && next->0.id != first_row(found)->0 {
            other_rows(found).push(next->0.id)
        } else {
            other_rows(found)
        },
        any_differs(found.push(next)) <==> any_differs(found) || (next is Some && !next->0.same),
{
    let all = found.push(next);
    assert(all.drop_last() =~= found);
    assert(all[found.len() as int] == next);
    if any_differs(found) {
        let i = choose|i: int|
            0 <= i < found.len() && #[trigger] found[i] is Some && !found[i]->0.same;
        assert(all[i] is Some && !all[i]->0.same);
    }
    if any_differs(all) {
        let i = choose|i: int| 0 <= i < all.len() && #[trigger] all[i] is Some && !all[i]->0.same;
        if i < found.len() {
            assert(found[i] is Some && !found[i]->0.same);
        }
    }
}

/// Where a row is merged into another, what led to it leads to the other, its swarms become the
/// other's unless that has them, the earlier time stands, and nothing else changes.
pub proof fn lemma_row_merged(
    library: Library,
    keep: int,
    remove: int,
    id: int,
    key: (bool, Seq<u8>),
    swarm: Seq<u8>,
)
    requires
        keep != remove,
    ensures
        ({
            let after = library.merged(keep, remove);
            &&& !after.metadata.contains_key(remove)
            &&& id != keep && id != remove ==> after.metadata.contains_key(id)
                == library.metadata.contains_key(id) && after.metadata[id] == library.metadata[id]
            &&& after.metadata[keep].info == library.metadata[keep].info
            &&& after.metadata[keep].fetched_at <= library.metadata[keep].fetched_at
            &&& after.metadata[keep].fetched_at <= library.metadata[remove].fetched_at
            &&& after.metadata[keep].fetched_at == library.metadata[keep].fetched_at
                || after.metadata[keep].fetched_at == library.metadata[remove].fetched_at
            &&& after.identities.contains_key(key) == library.identities.contains_key(key)
            &&& library.identities.contains_key(key) ==> after.identities[key]
                == if library.identities[key] == remove { keep } else { library.identities[key] }
            &&& !after.swarms.contains_key((swarm, remove))
            &&& after.swarms.contains_key((swarm, keep)) <==> library.swarms.contains_key(
                (swarm, keep),
            ) || library.swarms.contains_key((swarm, remove))
            &&& library.swarms.contains_key((swarm, keep)) ==> after.swarms[(swarm, keep)]
                == library.swarms[(swarm, keep)]
            &&& !library.swarms.contains_key((swarm, keep)) && library.swarms.contains_key(
                (swarm, remove),
            ) ==> after.swarms[(swarm, keep)] == library.swarms[(swarm, remove)]
        }),
{
}

} // verus!
