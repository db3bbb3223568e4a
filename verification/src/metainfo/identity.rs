//! The identities of a torrent: the digests of its info dictionary.

use crate::bencode::{
    decoder_tokens, find_key, key_position, read_tokens, token_models, Token, TokenModel,
};
use crate::metainfo::analysis::{Analysis, Format, Status, MAX_DEPTH};
use crate::metainfo::fields::key_bytes;
use crate::order::bytes_equal;
use vstd::prelude::*;

verus! {

/// The key under which peers meet: twenty bytes of a digest.
#[derive(Clone, Copy, Debug, PartialEq, Eq)]
pub struct SwarmKey(pub [u8; 20]);

/// The SHA-1 digest of an info dictionary.
#[derive(Clone, Copy, Debug, PartialEq, Eq)]
pub struct InfoHashV1(pub [u8; 20]);

/// The SHA-256 digest of an info dictionary.
#[derive(Clone, Copy, Debug, PartialEq, Eq)]
pub struct InfoHashV2(pub [u8; 32]);

/// A full identity of a torrent.
#[derive(Clone, Copy, Debug, PartialEq, Eq)]
pub enum TorrentIdentity {
    V1(InfoHashV1),
    V2(InfoHashV2),
}

/// The SHA-1 digest of a byte string.
pub uninterp spec fn sha1_digest(bytes: Seq<u8>) -> Seq<u8>;

/// The SHA-256 digest of a byte string.
pub uninterp spec fn sha256_digest(bytes: Seq<u8>) -> Seq<u8>;

/// `sha1::Sha1::digest` depends on the bytes alone; the digest has twenty bytes.
#[verifier::external_body]
pub(crate) fn sha1_of(bytes: &[u8]) -> (digest: [u8; 20])
    ensures
        digest@ == sha1_digest(bytes@),
{
    <sha1::Sha1 as sha1::Digest>::digest(bytes).into()
}

/// `sha2::Sha256::digest` depends on the bytes alone; the digest has thirty-two bytes.
#[verifier::external_body]
pub(crate) fn sha256_of(bytes: &[u8]) -> (digest: [u8; 32])
    ensures
        digest@ == sha256_digest(bytes@),
{
    <sha2::Sha256 as sha2::Digest>::digest(bytes).into()
}

impl TorrentIdentity {
    /// The digest as a sequence.
    pub open spec fn digest(self) -> Seq<u8> {
        match self {
            TorrentIdentity::V1(hash) => hash.0@,
            TorrentIdentity::V2(hash) => hash.0@,
        }
    }

    /// The key under which peers of this torrent meet: the first twenty bytes of the digest.
    pub fn swarm_key(self) -> (key: SwarmKey)
        ensures
            key.0@ == self.digest().take(20),
    {
        match self {
            TorrentIdentity::V1(hash) => {
                assert(hash.0@.take(20) =~= hash.0@);
                SwarmKey(hash.0)
            },
            TorrentIdentity::V2(hash) => {
                let mut key: [u8; 20] = [0u8; 20];
                for i in 0..20usize
                    invariant
                        key@.take(i as int) == hash.0@.take(i as int),
                {
                    let ghost before = key@;
                    key[i] = hash.0[i];
                    assert(key@.take(i + 1) =~= before.take(i as int).push(hash.0@[i as int]));
                    assert(hash.0@.take(i + 1) =~= hash.0@.take(i as int).push(hash.0@[i as int]));
                }
                assert(key@.take(20) =~= key@);
                SwarmKey(key)
            },
        }
    }
}

/// Whether two texts are equal.
pub fn text_equal(a: &str, b: &str) -> (equal: bool)
    ensures
        equal == (a@ == b@),
{
    proof {
        vstd::utf8::encode_utf8_decode_utf8(a@);
        vstd::utf8::encode_utf8_decode_utf8(b@);
    }
    bytes_equal(a.as_bytes(), b.as_bytes())
}

/// Whether the tokens start a dictionary whose meta version is two, as far as they can be read.
pub open spec fn names_v2(tokens: Seq<TokenModel>) -> bool {
    &&& tokens.len() > 0
    &&& tokens[0] is Dict
    &&& match key_position(tokens, 1, key_bytes("meta version")) {
        Some(at) => at < tokens.len() && tokens[at] == TokenModel::Number("2"@),
        None => false,
    }
}

/// Whether the tokens start a dictionary whose meta version is two.
pub fn is_v2_tokens(tokens: &[Token]) -> (v2: bool)
    ensures
        v2 == names_v2(token_models(tokens@)),
{
    let ghost models = token_models(tokens@);
    if tokens.len() == 0 {
        return false;
    }
    assert(models[0] == tokens@[0]@);
    if !matches!(tokens[0], Token::Dict) {
        return false;
    }
    match find_key(tokens, 1, "meta version".as_bytes()) {
        None => false,
        Some(at) => if at < tokens.len() {
            assert(models[at as int] == tokens@[at as int]@);
            match tokens[at] {
                Token::Number(text) => text_equal(text, "2"),
                _ => false,
            }
        } else {
            false
        },
    }
}

/// Whether an info dictionary names version two. Only its start is read: nothing is said of the
/// rest.
pub fn is_v2(info: &[u8]) -> (v2: bool)
    ensures
        v2 == names_v2(decoder_tokens(info@, MAX_DEPTH as nat)),
{
    let tokens = read_tokens(info, MAX_DEPTH);
    is_v2_tokens(tokens.as_slice())
}

/// The identity whose key is `key`: the first digest where it is the key, else the second, where
/// there is one, if the key begins it.
pub fn select_identity(sha1: [u8; 20], sha256: Option<[u8; 32]>, key: SwarmKey) -> (found: Option<
    TorrentIdentity,
>)
    ensures
        found == (if sha1@ == key.0@ {
            Some(TorrentIdentity::V1(InfoHashV1(sha1)))
        } else {
            match sha256 {
                Some(digest) if digest@.take(20) == key.0@ => Some(
                    TorrentIdentity::V2(InfoHashV2(digest)),
                ),
                _ => None,
            }
        }),
{
    if bytes_equal(vstd::array::array_as_slice(&sha1), vstd::array::array_as_slice(&key.0)) {
        return Some(TorrentIdentity::V1(InfoHashV1(sha1)));
    }
    match sha256 {
        None => None,
        Some(digest) => {
            let identity = TorrentIdentity::V2(InfoHashV2(digest));
            let own = identity.swarm_key();
            if bytes_equal(vstd::array::array_as_slice(&own.0), vstd::array::array_as_slice(&key.0)) {
                Some(identity)
            } else {
                None
            }
        },
    }
}

/// The identity under which an info dictionary answers to `key`. A match of the second digest says
/// no more than that its first twenty bytes are the key.
pub fn match_identity(info: &[u8], key: SwarmKey) -> (found: Option<TorrentIdentity>)
    ensures
        if sha1_digest(info@) == key.0@ {
            found matches Some(TorrentIdentity::V1(hash)) && hash.0@ == sha1_digest(info@)
        } else if names_v2(decoder_tokens(info@, MAX_DEPTH as nat)) && sha256_digest(info@).take(20)
            == key.0@ {
            found matches Some(TorrentIdentity::V2(hash)) && hash.0@ == sha256_digest(info@)
        } else {
            found is None
        },
{
    let sha1: [u8; 20] = sha1_of(info);
    let first = select_identity(sha1, None, key);
    if first.is_some() || !is_v2(info) {
        return first;
    }
    select_identity(sha1, Some(sha256_of(info)), key)
}

/// The identities under which an info dictionary is filed: only a valid hybrid has both, since the
/// match of one digest does not show that both layouts agree.
pub fn identities(info: &[u8], source: TorrentIdentity, analysis: &Analysis) -> (all: Vec<
    TorrentIdentity,
>)
    ensures
        if analysis.status is Valid && analysis.format is Hybrid {
            &&& all@.len() == 2
            &&& all@[0] is V1
            &&& all@[0].digest() == sha1_digest(info@)
            &&& all@[1] is V2
            &&& all@[1].digest() == sha256_digest(info@)
        } else {
            all@ == seq![source]
        },
{
    if analysis.status == Status::Valid && analysis.format == Format::Hybrid {
        let mut all: Vec<TorrentIdentity> = Vec::new();
        all.push(TorrentIdentity::V1(InfoHashV1(sha1_of(info))));
        all.push(TorrentIdentity::V2(InfoHashV2(sha256_of(info))));
        all
    } else {
        let mut all: Vec<TorrentIdentity> = Vec::new();
        all.push(source);
        assert(all@ =~= seq![source]);
        all
    }
}

} // verus!
