//! Requests to the catalog: which are refused, and what the others ask for.

use crate::bencode::{
    decoder_tokens, dictionary_end, read_tokens, skip_dictionary, token_models, Token, TokenModel,
};
use crate::bounded::{cursor_number, read_cursor};
use crate::inspection::ReadError;
use crate::metainfo::analysis::{MAX_BYTES, MAX_DEPTH};
use crate::metainfo::identity::{
    match_identity, names_v2, sha1_digest, sha256_digest, sha1_of, sha256_of, InfoHashV1, InfoHashV2,
    TorrentIdentity,
};
use crate::order::bytes_equal;
use vstd::prelude::*;

verus! {

/// The largest number of lines on a page.
pub const PAGE_LIMIT: usize = 100;

/// The shortest search, in characters.
pub const QUERY_MIN: usize = 3;

/// The longest search, in characters.
pub const QUERY_MAX: usize = 200;

/// The characters with the property White_Space.
pub open spec fn is_space(c: char) -> bool {
    let code = c as int;
    ||| 0x9 <= code <= 0xd
    ||| code == 0x20
    ||| code == 0x85
    ||| code == 0xa0
    ||| code == 0x1680
    ||| 0x2000 <= code <= 0x200a
    ||| code == 0x2028
    ||| code == 0x2029
    ||| code == 0x202f
    ||| code == 0x205f
    ||| code == 0x3000
}

/// The text without the white space at its end.
pub open spec fn trim_end(text: Seq<char>) -> Seq<char>
    decreases text.len(),
{
    if text.len() > 0 && is_space(text.last()) {
        trim_end(text.drop_last())
    } else {
        text
    }
}

/// The text without the white space at both ends.
pub open spec fn trimmed(text: Seq<char>) -> Seq<char>
    decreases text.len(),
{
    if text.len() > 0 && is_space(text[0]) {
        trimmed(text.drop_first())
    } else {
        trim_end(text)
    }
}

/// Each quotation mark twice.
pub open spec fn doubled_quotes(text: Seq<char>) -> Seq<char>
    decreases text.len(),
{
    if text.len() == 0 {
        seq![]
    } else if text.last() == '"' {
        doubled_quotes(text.drop_last()).push('"').push('"')
    } else {
        doubled_quotes(text.drop_last()).push(text.last())
    }
}

/// The phrase that matches a text literally: in quotation marks, those inside doubled.
pub open spec fn literal_phrase(text: Seq<char>) -> Seq<char> {
    seq!['"'] + doubled_quotes(text) + seq!['"']
}

/// What a search asks for: nothing but the newest entries where the text is blank.
pub open spec fn search_phrase(query: Option<Seq<char>>) -> Result<Option<Seq<char>>, ReadError> {
    match query {
        None => Ok(None),
        Some(text) => {
            let wanted = trimmed(text);
            if wanted.len() == 0 {
                Ok(None)
            } else if QUERY_MIN <= wanted.len() <= QUERY_MAX {
                Ok(Some(literal_phrase(wanted)))
            } else {
                Err(ReadError::Invalid)
            }
        },
    }
}

/// The number of entries before a page, as far as the database can count.
pub open spec fn page_offset(page: int, limit: int) -> int {
    let product = (page - 1) * limit;
    let held = if product > usize::MAX {
        usize::MAX as int
    } else {
        product
    };
    if held > i64::MAX {
        i64::MAX as int
    } else {
        held
    }
}

/// A page of the catalog that can be asked of the database.
#[derive(Debug)]
pub struct PageRequest {
    pub phrase: Option<String>,
    pub page: usize,
    pub limit: i64,
    pub offset: i64,
}

/// Whether `c` is white space.
pub(crate) fn space(c: char) -> (space: bool)
    ensures
        space == is_space(c),
{
    let code: u32 = c as u32;
    (0x9 <= code && code <= 0xd) || code == 0x20 || code == 0x85 || code == 0xa0 || code == 0x1680 || (
    0x2000 <= code && code <= 0x200a) || code == 0x2028 || code == 0x2029 || code == 0x202f || code
        == 0x205f || code == 0x3000
}

/// The characters of a text.
pub(crate) fn characters(text: &str) -> (chars: Vec<char>)
    ensures
        chars@ == text@,
{
    let mut chars: Vec<char> = Vec::new();
    for c in it: text.chars()
        invariant
            it.seq() == text@,
            chars@ == text@.take(it.index() as int),
    {
        let ghost before = chars@;
        chars.push(c);
        assert(text@.take(it.index() + 1) =~= before.push(c));
    }
    assert(text@.take(text@.len() as int) =~= text@);
    chars
}

/// Where the text starts and ends once white space is left out.
fn trim_range(chars: &Vec<char>) -> (range: (usize, usize))
    ensures
        range.0 <= range.1 <= chars@.len(),
        chars@.subrange(range.0 as int, range.1 as int) == trimmed(chars@),
{
    let ghost all = chars@;
    let mut start: usize = 0;
    assert(all.skip(0) =~= all);
    while start < chars.len() && space(chars[start])
        invariant
            all == chars@,
            start <= chars@.len(),
            trimmed(all) == trimmed(all.skip(start as int)),
        decreases chars@.len() - start,
    {
        assert(all.skip(start as int).drop_first() =~= all.skip(start + 1));
        start += 1;
    }
    let ghost rest = all.skip(start as int);
    let mut end: usize = chars.len();
    assert(rest.take(end - start) =~= rest);
    while end > start && space(chars[end - 1])
        invariant
            all == chars@,
            rest == all.skip(start as int),
            start <= end <= chars@.len(),
            trim_end(rest) == trim_end(rest.take(end - start)),
        decreases end - start,
    {
        assert(rest.take(end - start).drop_last() =~= rest.take(end - start - 1));
        assert(rest.take(end - start).last() == all[end - 1]);
        end -= 1;
    }
    proof {
        let left = rest.take(end - start);
        assert(left =~= all.subrange(start as int, end as int));
        if end > start {
            assert(left.last() == all[end - 1]);
        }
    }
    (start, end)
}

/// The phrase that matches the characters from `start` to `end` literally.
fn write_phrase(chars: &Vec<char>, start: usize, end: usize) -> (phrase: String)
    requires
        start <= end <= chars@.len(),
    ensures
        phrase@ == literal_phrase(chars@.subrange(start as int, end as int)),
{
    let ghost wanted = chars@.subrange(start as int, end as int);
    let mut phrase = String::new();
    phrase.push('"');
    assert(phrase@ =~= seq!['"'] + doubled_quotes(wanted.take(0)));
    for i in start..end
        invariant
            start <= end <= chars@.len(),
            wanted == chars@.subrange(start as int, end as int),
            phrase@ == seq!['"'] + doubled_quotes(wanted.take(i - start)),
    {
        let ghost before = phrase@;
        let c = chars[i];
        proof {
            assert(wanted.take(i + 1 - start).drop_last() =~= wanted.take(i - start));
            assert(wanted.take(i + 1 - start).last() == c);
        }
        if c == '"' {
            phrase.push('"');
        }
        phrase.push(c);
        assert(phrase@ =~= seq!['"'] + doubled_quotes(wanted.take(i + 1 - start)));
    }
    assert(wanted.take(end - start) =~= wanted);
    phrase.push('"');
    assert(phrase@ =~= literal_phrase(wanted));
    phrase
}

/// What a search asks for.
fn read_query(query: Option<&str>) -> (result: Result<Option<String>, ReadError>)
    ensures
        match search_phrase(
            match query {
                Some(text) => Some(text@),
                None => None,
            },
        ) {
            Ok(Some(phrase)) => result is Ok && result->Ok_0 is Some && result->Ok_0->0@ == phrase,
            Ok(None) => result == Ok::<Option<String>, ReadError>(None),
            Err(error) => result == Err::<Option<String>, ReadError>(error),
        },
{
    match query {
        None => Ok(None),
        Some(text) => {
            let chars = characters(text);
            let (start, end) = trim_range(&chars);
            assert(trimmed(text@).len() == end - start);
            if start == end {
                Ok(None)
            } else if QUERY_MIN <= end - start && end - start <= QUERY_MAX {
                Ok(Some(write_phrase(&chars, start, end)))
            } else {
                Err(ReadError::Invalid)
            }
        },
    }
}

/// Checks a request for a page of the catalog. Pages count from one, and a page behind the last is
/// empty, not refused.
pub fn page_request(query: Option<&str>, page: usize, limit: usize) -> (result: Result<
    PageRequest,
    ReadError,
>)
    ensures
        ({
            let phrase = search_phrase(
                match query {
                    Some(text) => Some(text@),
                    None => None,
                },
            );
            if !(1 <= limit <= PAGE_LIMIT) || page == 0 || phrase is Err {
                result == Err::<PageRequest, ReadError>(ReadError::Invalid)
            } else {
                &&& result is Ok
                &&& crate::metainfo::files::text_model(result->Ok_0.phrase) == phrase->Ok_0
                &&& result->Ok_0.page == page
                &&& result->Ok_0.limit == limit
                &&& result->Ok_0.offset == page_offset(page as int, limit as int)
            }
        }),
{
    if limit < 1 || limit > PAGE_LIMIT || page == 0 {
        return Err(ReadError::Invalid);
    }
    let phrase = match read_query(query) {
        Err(error) => {
            return Err(ReadError::Invalid);
        },
        Ok(phrase) => phrase,
    };
    let skipped: u128 = (page - 1) as u128;
    assert((page - 1) * limit <= usize::MAX * 100) by (nonlinear_arith)
        requires
            1 <= page <= usize::MAX,
            1 <= limit <= 100,
    ;
    let product: u128 = skipped * (limit as u128);
    let held: u128 = if product > usize::MAX as u128 {
        usize::MAX as u128
    } else {
        product
    };
    let offset: i64 = if held > i64::MAX as u128 {
        i64::MAX
    } else {
        held as i64
    };
    Ok(PageRequest { phrase, page, limit: limit as i64, offset })
}

/// Reads the cursor of a file page.
pub fn parse_file_cursor(value: &str) -> (result: Result<usize, ReadError>)
    ensures
        match cursor_number(value@) {
            Some(n) if n <= usize::MAX => result is Ok && result->Ok_0 == n,
            _ => result == Err::<usize, ReadError>(ReadError::Invalid),
        },
{
    match read_cursor(value) {
        None => Err(ReadError::Invalid),
        Some(n) => if n > usize::MAX as u64 {
            Err(ReadError::Invalid)
        } else {
            Ok(n as usize)
        },
    }
}

/// Checks a request for a page of files, and says where it starts.
pub fn files_request(after: Option<&str>, limit: usize) -> (result: Result<usize, ReadError>)
    ensures
        if !(1 <= limit <= PAGE_LIMIT) {
            result == Err::<usize, ReadError>(ReadError::Invalid)
        } else {
            match after {
                None => result == Ok::<usize, ReadError>(0),
                Some(cursor) => match cursor_number(cursor@) {
                    Some(n) if n <= usize::MAX => result is Ok && result->Ok_0 == n,
                    _ => result == Err::<usize, ReadError>(ReadError::Invalid),
                },
            }
        },
{
    if limit < 1 || limit > PAGE_LIMIT {
        return Err(ReadError::Invalid);
    }
    match after {
        None => Ok(0),
        Some(cursor) => parse_file_cursor(cursor),
    }
}

/// How much of the stored metadata the catalog covers.
#[derive(Clone, Copy, Debug, PartialEq, Eq, Structural)]
pub struct IndexState {
    pub indexed: i64,
    pub total: i64,
    pub complete: bool,
    pub search_complete: bool,
}

/// The state of the index. It is complete where every entry is covered, and its search is complete
/// where, besides, no entry had to leave something out.
pub fn index_state(indexed: i64, total: i64, search_incomplete: i64) -> (state: IndexState)
    ensures
        state.indexed == indexed,
        state.total == total,
        state.complete == (indexed == total),
        state.search_complete == (indexed == total && search_incomplete == 0),
{
    IndexState {
        indexed,
        total,
        complete: indexed == total,
        search_complete: search_incomplete == 0 && indexed == total,
    }
}

/// Whether the tokens are those of one dictionary and nothing else.
pub open spec fn is_one_dictionary(tokens: Seq<TokenModel>) -> bool {
    dictionary_end(tokens) == Some(tokens.len() as int)
}

/// Whether the tokens are those of one dictionary and nothing else.
pub fn one_dictionary(tokens: &[Token]) -> (whole: bool)
    ensures
        whole == is_one_dictionary(token_models(tokens@)),
{
    match skip_dictionary(tokens) {
        Some(behind) => behind == tokens.len(),
        None => false,
    }
}

/// Whether stored bytes are an info dictionary with this identity: of a size that is analysed, with
/// the digest, and one dictionary from end to end.
pub open spec fn is_stored_as(info: Seq<u8>, identity: TorrentIdentity) -> bool {
    &&& 0 < info.len() <= MAX_BYTES
    &&& match identity {
        TorrentIdentity::V1(hash) => sha1_digest(info) == hash.0@,
        TorrentIdentity::V2(hash) => sha256_digest(info) == hash.0@,
    }
    &&& is_one_dictionary(decoder_tokens(info, MAX_DEPTH as nat))
}

/// Accepts stored bytes that are an info dictionary with this identity.
pub fn check_stored(info: &[u8], identity: TorrentIdentity) -> (result: Result<(), ReadError>)
    ensures
        is_stored_as(info@, identity) ==> result is Ok,
        !is_stored_as(info@, identity) ==> result == Err::<(), ReadError>(ReadError::Unavailable),
{
    if info.len() == 0 || info.len() > MAX_BYTES {
        return Err(ReadError::Unavailable);
    }
    let digest_matches = match identity {
        TorrentIdentity::V1(hash) => {
            let digest: [u8; 20] = sha1_of(info);
            bytes_equal(vstd::array::array_as_slice(&digest), vstd::array::array_as_slice(&hash.0))
        },
        TorrentIdentity::V2(hash) => {
            let digest: [u8; 32] = sha256_of(info);
            bytes_equal(vstd::array::array_as_slice(&digest), vstd::array::array_as_slice(&hash.0))
        },
    };
    if !digest_matches {
        return Err(ReadError::Unavailable);
    }
    let tokens = read_tokens(info, MAX_DEPTH);
    if one_dictionary(tokens.as_slice()) {
        Ok(())
    } else {
        Err(ReadError::Unavailable)
    }
}

/// What a step of the backfill does with an entry.
#[derive(Clone, Copy, Debug, PartialEq, Eq, Structural)]
pub enum BackfillAction {
    /// The bytes have the identity under which they are stored: they are filed anew.
    Refile,
    /// They have not: the entry becomes a placeholder, and no identity is added.
    Placeholder,
}

/// Where the backfill has come to.
#[derive(Clone, Copy, Debug, PartialEq, Eq, Structural)]
pub struct BackfillStep {
    pub cursor: Option<i64>,
    pub complete: bool,
}

/// A step that found entry `id` to work on, or none. Only a step that finds nothing can tell that
/// the backfill is complete.
pub fn backfill_step(cursor: Option<i64>, found: Option<i64>, index: IndexState) -> (step: BackfillStep)
    ensures
        step == (match found {
            Some(id) => BackfillStep { cursor: Some(id), complete: false },
            None => BackfillStep { cursor, complete: index.complete },
        }),
{
    match found {
        Some(id) => BackfillStep { cursor: Some(id), complete: false },
        None => BackfillStep { cursor, complete: index.complete },
    }
}

/// The identity under which an entry is stored: twenty bytes are of the first version, thirty-two of
/// the second.
pub fn stored_identity(hash: &[u8]) -> (result: Result<TorrentIdentity, ReadError>)
    ensures
        if hash@.len() == 20 {
            result matches Ok(TorrentIdentity::V1(found)) && found.0@ == hash@
        } else if hash@.len() == 32 {
            result matches Ok(TorrentIdentity::V2(found)) && found.0@ == hash@
        } else {
            result == Err::<TorrentIdentity, ReadError>(ReadError::Unavailable)
        },
{
    if hash.len() == 20 {
        let mut bytes: [u8; 20] = [0u8; 20];
        for i in 0..20usize
            invariant
                hash@.len() == 20,
                bytes@.take(i as int) == hash@.take(i as int),
        {
            let ghost before = bytes@;
            bytes[i] = hash[i];
            assert(bytes@.take(i + 1) =~= before.take(i as int).push(hash@[i as int]));
            assert(hash@.take(i + 1) =~= hash@.take(i as int).push(hash@[i as int]));
        }
        assert(bytes@ =~= bytes@.take(20) && hash@ =~= hash@.take(20));
        Ok(TorrentIdentity::V1(InfoHashV1(bytes)))
    } else if hash.len() == 32 {
        let mut bytes: [u8; 32] = [0u8; 32];
        for i in 0..32usize
            invariant
                hash@.len() == 32,
                bytes@.take(i as int) == hash@.take(i as int),
        {
            let ghost before = bytes@;
            bytes[i] = hash[i];
            assert(bytes@.take(i + 1) =~= before.take(i as int).push(hash@[i as int]));
            assert(hash@.take(i + 1) =~= hash@.take(i as int).push(hash@[i as int]));
        }
        assert(bytes@ =~= bytes@.take(32) && hash@ =~= hash@.take(32));
        Ok(TorrentIdentity::V2(InfoHashV2(bytes)))
    } else {
        Err(ReadError::Unavailable)
    }
}

/// Whether two identities are the same.
pub fn same_identity(a: TorrentIdentity, b: TorrentIdentity) -> (same: bool)
    ensures
        same == ((a is V1) == (b is V1) && a.digest() == b.digest()),
{
    match (a, b) {
        (TorrentIdentity::V1(a), TorrentIdentity::V1(b)) => bytes_equal(
            vstd::array::array_as_slice(&a.0),
            vstd::array::array_as_slice(&b.0),
        ),
        (TorrentIdentity::V2(a), TorrentIdentity::V2(b)) => bytes_equal(
            vstd::array::array_as_slice(&a.0),
            vstd::array::array_as_slice(&b.0),
        ),
        _ => false,
    }
}

/// What to do with an entry, once it is known under which identity its bytes answer to the key of
/// the stored one.
pub fn backfill_action(found: Option<TorrentIdentity>, stored: TorrentIdentity) -> (action:
    BackfillAction)
    ensures
        action is Refile == (found matches Some(found) && (found is V1) == (stored is V1)
            && found.digest() == stored.digest()),
{
    match found {
        Some(found) => if same_identity(found, stored) {
            BackfillAction::Refile
        } else {
            BackfillAction::Placeholder
        },
        None => BackfillAction::Placeholder,
    }
}

/// What to do with an entry whose bytes are `info`.
pub fn judge_entry(info: &[u8], stored: TorrentIdentity) -> (action: BackfillAction)
    ensures
        action is Refile == (match stored {
            TorrentIdentity::V1(hash) => sha1_digest(info@) == hash.0@,
            TorrentIdentity::V2(hash) => {
                &&& sha1_digest(info@) != hash.0@.take(20)
                &&& names_v2(decoder_tokens(info@, MAX_DEPTH as nat))
                &&& sha256_digest(info@) == hash.0@
            },
        }),
{
    let key = stored.swarm_key();
    proof {
        if stored is V1 {
            assert(stored.digest().take(20) =~= stored.digest());
        }
    }
    backfill_action(match_identity(info, key), stored)
}

/// What is left of a text once every pair of quotation marks in it is one mark; nothing where a mark
/// stands alone.
pub open spec fn undoubled(text: Seq<char>) -> Option<Seq<char>>
    decreases text.len(),
{
    if text.len() == 0 {
        Some(seq![])
    } else if text.last() != '"' {
        match undoubled(text.drop_last()) {
            Some(front) => Some(front.push(text.last())),
            None => None,
        }
    } else if text.len() >= 2 && text[text.len() - 2] == '"' {
        match undoubled(text.take(text.len() - 2)) {
            Some(front) => Some(front.push('"')),
            None => None,
        }
    } else {
        None
    }
}

proof fn lemma_undoubled(text: Seq<char>)
    ensures
        undoubled(doubled_quotes(text)) == Some(text),
    decreases text.len(),
{
    if text.len() > 0 {
        let front = text.drop_last();
        lemma_undoubled(front);
        let written = doubled_quotes(text);
        assert(front.push(text.last()) =~= text);
        if text.last() == '"' {
            assert(written.take(written.len() - 2) =~= doubled_quotes(front));
        } else {
            assert(written.drop_last() =~= doubled_quotes(front));
        }
    } else {
        assert(undoubled(doubled_quotes(text))->0 =~= text);
    }
}

/// A phrase says what is searched for, and nothing else: between its two outer marks stands the text
/// with its marks doubled, so that a text without marks stands there as it is, and no two texts have
/// one phrase.
pub proof fn lemma_phrase_read_back(text: Seq<char>, other: Seq<char>)
    ensures
        literal_phrase(text).len() >= 2,
        literal_phrase(text)[0] == '"',
        literal_phrase(text).last() == '"',
        undoubled(literal_phrase(text).drop_first().drop_last()) == Some(text),
        !text.contains('"') ==> literal_phrase(text) == seq!['"'] + text + seq!['"'],
        literal_phrase(text) == literal_phrase(other) ==> text == other,
{
    lemma_undoubled(text);
    lemma_undoubled(other);
    assert(literal_phrase(text).drop_first().drop_last() =~= doubled_quotes(text));
    assert(literal_phrase(other).drop_first().drop_last() =~= doubled_quotes(other));
    if !text.contains('"') {
        lemma_no_quotes(text);
    }
}

proof fn lemma_no_quotes(text: Seq<char>)
    requires
        !text.contains('"'),
    ensures
        doubled_quotes(text) == text,
    decreases text.len(),
{
    if text.len() > 0 {
        let front = text.drop_last();
        assert(!front.contains('"')) by {
            if front.contains('"') {
                let i = choose|i: int| 0 <= i < front.len() && front[i] == '"';
                assert(text[i] == '"');
            }
        }
        lemma_no_quotes(front);
        assert(text[text.len() - 1] != '"');
        assert(front.push(text.last()) =~= text);
    } else {
        assert(doubled_quotes(text) =~= text);
    }
}

/// Whether a character is blank: a tab, a line break of any kind, a space of any width.
pub open spec fn is_blank(c: char) -> bool {
    ||| c == ' '
    ||| '\t' <= c <= '\r'
    ||| c == '\u{85}'
    ||| c == '\u{a0}'
    ||| c == '\u{1680}'
    ||| '\u{2000}' <= c <= '\u{200a}'
    ||| '\u{2028}' <= c <= '\u{2029}'
    ||| c == '\u{202f}'
    ||| c == '\u{205f}'
    ||| c == '\u{3000}'
}

proof fn lemma_trim_end(text: Seq<char>) -> (end: int)
    ensures
        0 <= end <= text.len(),
        trim_end(text) == text.take(end),
        end > 0 ==> !is_blank(text[end - 1]),
        forall|i: int| end <= i < text.len() ==> is_blank(#[trigger] text[i]),
    decreases text.len(),
{
    if text.len() > 0 && is_space(text.last()) {
        let front = text.drop_last();
        let end = lemma_trim_end(front);
        assert(front.take(end) =~= text.take(end));
        assert forall|i: int| end <= i < text.len() implies is_blank(#[trigger] text[i]) by {
            if i < front.len() {
                assert(front[i] == text[i]);
            }
        }
        end
    } else {
        assert(text.take(text.len() as int) =~= text);
        text.len() as int
    }
}

/// Trimming takes the blanks at both ends, all of them, and nothing else.
pub proof fn lemma_trimmed(text: Seq<char>) -> (range: (int, int))
    ensures
        0 <= range.0 <= range.1 <= text.len(),
        trimmed(text) == text.subrange(range.0, range.1),
        forall|i: int| 0 <= i < range.0 ==> is_blank(#[trigger] text[i]),
        forall|i: int| range.1 <= i < text.len() ==> is_blank(#[trigger] text[i]),
        range.0 < range.1 ==> !is_blank(text[range.0]) && !is_blank(text[range.1 - 1]),
    decreases text.len(),
{
    if text.len() > 0 && is_space(text[0]) {
        let rest = text.drop_first();
        let (start, end) = lemma_trimmed(rest);
        assert(rest.subrange(start, end) =~= text.subrange(start + 1, end + 1));
        assert forall|i: int| 0 <= i < start + 1 implies is_blank(#[trigger] text[i]) by {
            if i > 0 {
                assert(rest[i - 1] == text[i]);
            }
        }
        assert forall|i: int| end + 1 <= i < text.len() implies is_blank(#[trigger] text[i]) by {
            assert(rest[i - 1] == text[i]);
        }
        (start + 1, end + 1)
    } else {
        let end = lemma_trim_end(text);
        assert(text.take(end) =~= text.subrange(0, end));
        (0, end)
    }
}

/// A search is for the text between its outer blanks, taken literally, where that has three to two
/// hundred characters; a blank search is for everything, and any other is refused.
pub proof fn lemma_search(query: Seq<char>)
    ensures
        trimmed(query).len() == 0 ==> search_phrase(Some(query)) == Ok::<
            Option<Seq<char>>,
            ReadError,
        >(None),
        3 <= trimmed(query).len() <= 200 ==> search_phrase(Some(query)) == Ok::<
            Option<Seq<char>>,
            ReadError,
        >(Some(literal_phrase(trimmed(query)))),
        0 < trimmed(query).len() < 3 || trimmed(query).len() > 200 ==> search_phrase(Some(query))
            == Err::<Option<Seq<char>>, ReadError>(ReadError::Invalid),
        search_phrase(None) == Ok::<Option<Seq<char>>, ReadError>(None),
{
}

/// Pages follow each other: the first starts with the first entry, and each next one behind the
/// entries of the page before, as long as the numbers can be held.
pub proof fn lemma_pages_follow(page: int, limit: int)
    requires
        1 <= page,
        0 < limit,
        page * limit <= usize::MAX,
        page * limit <= i64::MAX,
    ensures
        page_offset(1, limit) == 0,
        page_offset(page + 1, limit) == page_offset(page, limit) + limit,
{
    assert((page - 1) * limit + limit == page * limit) by (nonlinear_arith);
    assert((page + 1 - 1) * limit == page * limit);
    assert(0 <= (page - 1) * limit) by (nonlinear_arith)
        requires
            1 <= page,
            0 < limit,
    ;
    assert((1 - 1) * limit == 0) by (nonlinear_arith);
}

/// Stored bytes stand for an identity where there are from one byte to four mebibytes of them, their
/// digest of its version is its own, and they are one dictionary and nothing else.
pub proof fn lemma_stored_as(info: Seq<u8>, identity: TorrentIdentity)
    ensures
        ({
            let tokens = decoder_tokens(info, 64);
            is_stored_as(info, identity) <==> {
                &&& 1 <= info.len() <= 4 * 1024 * 1024
                &&& match identity {
                    TorrentIdentity::V1(hash) => hash.0@ == sha1_digest(info),
                    TorrentIdentity::V2(hash) => hash.0@ == sha256_digest(info),
                }
                &&& dictionary_end(tokens) == Some(tokens.len() as int)
            }
        }),
{
}

/// A page that starts behind what can be held starts at the largest number, and a page has at most a
/// hundred entries.
pub proof fn lemma_page_limits(page: int, limit: int)
    requires
        (page - 1) * limit > i64::MAX,
    ensures
        usize::MAX >= i64::MAX ==> page_offset(page, limit) == i64::MAX,
        usize::MAX < i64::MAX ==> page_offset(page, limit) == usize::MAX,
        PAGE_LIMIT == 100,
{
}

} // verus!
