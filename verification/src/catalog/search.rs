//! The search text of a torrent, and the bound on what is shown of it.

use crate::bencode::{decoder_tokens, read_document};
use crate::bounded::{
    byte_count, byte_len, char_bytes, fitting, lemma_encode_append, lemma_encode_push,
    lemma_fitting, push_bounded,
};
use crate::metainfo::analysis::{analyze, judge, ParsedInfo, MAX_BYTES, MAX_DEPTH, PARSE_BUDGET};
use crate::metainfo::files::{file_models, FileKind, FileModel, TorrentFile};
use vstd::prelude::*;

verus! {

/// The largest text that is shown, in bytes.
pub const DISPLAY_TEXT_BYTES: usize = 4096;

/// The largest text that is searched, in bytes.
pub const SEARCH_TEXT_BYTES: usize = 12 * 1024 * 1024;

/// A valid info dictionary with the text by which it is found.
#[derive(Debug)]
pub struct CatalogInfo {
    pub info: ParsedInfo,
    pub search_text: String,
    pub search_truncated: bool,
}

/// A search text, and whether something was left out of it.
pub struct SearchModel {
    pub text: Seq<char>,
    pub truncated: bool,
}

/// One more file in the search text: a line with its path, if there is one and it fits.
pub open spec fn search_step(search: SearchModel, file: FileModel, limit: int) -> SearchModel {
    if search.truncated || file.kind is Padding || file.path is None {
        search
    } else if byte_count(search.text) + 1 + byte_count(file.path->0) > limit {
        SearchModel { text: search.text, truncated: true }
    } else {
        SearchModel { text: search.text.push('\n') + file.path->0, truncated: false }
    }
}

/// The search text of a torrent: its name, then a line for each file, up to the first that does not
/// fit.
pub open spec fn search_model(name: Seq<char>, files: Seq<FileModel>, limit: int) -> SearchModel
    decreases files.len(),
{
    if files.len() == 0 {
        if byte_count(name) <= limit {
            SearchModel { text: name, truncated: false }
        } else {
            SearchModel { text: seq![], truncated: true }
        }
    } else {
        search_step(search_model(name, files.drop_last(), limit), files.last(), limit)
    }
}

/// The lines that the files add to the search text.
pub open spec fn path_lines(files: Seq<FileModel>) -> Seq<char>
    decreases files.len(),
{
    if files.len() == 0 {
        seq![]
    } else if files.last().kind is Padding || files.last().path is None {
        path_lines(files.drop_last())
    } else {
        path_lines(files.drop_last()).push('\n') + files.last().path->0
    }
}

/// The search text never exceeds its limit, holds no part of a path, and is complete unless it says
/// otherwise: it is the name with the lines of the first files, and of all files where nothing was
/// left out.
pub proof fn lemma_search_text(name: Seq<char>, files: Seq<FileModel>, limit: int)
    requires
        0 <= limit,
    ensures
        ({
            let search = search_model(name, files, limit);
            &&& byte_count(search.text) <= limit
            &&& !search.truncated ==> search.text == name + path_lines(files)
            &&& search.truncated && byte_count(name) <= limit ==> exists|n: int|
                0 <= n < files.len() && search.text == name + #[trigger] path_lines(files.take(n))
            &&& byte_count(name) > limit ==> search.truncated && search.text.len() == 0
        }),
    decreases files.len(),
{
    assert(vstd::utf8::encode_utf8(Seq::<char>::empty()).len() == 0);
    if files.len() == 0 {
        assert(name + path_lines(files) =~= name);
    } else {
        let front = files.drop_last();
        let before = search_model(name, front, limit);
        lemma_search_text(name, front, limit);
        let search = search_model(name, files, limit);
        if before.truncated {
            if byte_count(name) <= limit {
                let n = choose|n: int|
                    0 <= n < front.len() && before.text == name + #[trigger] path_lines(
                        front.take(n),
                    );
                assert(front.take(n) =~= files.take(n));
                assert(search.text == name + path_lines(files.take(n)));
            }
        } else if files.last().kind is Padding || files.last().path is None {
        } else {
            let path = files.last().path->0;
            assert(files.take(files.len() - 1) =~= front);
            if search.truncated {
                assert(search.text == name + path_lines(files.take(files.len() - 1)));
            } else {
                lemma_encode_push(before.text, '\n');
                lemma_encode_append(before.text.push('\n'), path);
                assert(vstd::utf8::encode_scalar('\n' as u32).len() == 1);
                assert(search.text =~= name + path_lines(files));
            }
        }
    }
}

/// The text of a line break takes one byte.
fn fits_line(held: &String, path: &String, limit: usize) -> (fits: bool)
    ensures
        fits == (byte_count(held@) + 1 + byte_count(path@) <= limit),
{
    let size: usize = byte_len(held.as_str());
    match size.checked_add(1) {
        None => false,
        Some(more) => match more.checked_add(byte_len(path.as_str())) {
            None => false,
            Some(whole) => whole <= limit,
        },
    }
}

/// The search text of a torrent.
fn search_text(name: &String, files: &Vec<TorrentFile>) -> (result: (String, bool))
    ensures
        ({
            let search = search_model(name@, file_models(files@), SEARCH_TEXT_BYTES as int);
            result.0@ == search.text && result.1 == search.truncated
        }),
{
    let ghost models = file_models(files@);
    let ghost limit = SEARCH_TEXT_BYTES as int;
    let mut text = String::new();
    proof {
        assert(vstd::utf8::encode_utf8(text@).len() == 0);
        assert(text@ + name@ =~= name@);
        assert(models.take(0) =~= seq![]);
    }
    let mut truncated = !push_bounded(&mut text, name.as_str(), SEARCH_TEXT_BYTES);
    for i in 0..files.len()
        invariant
            models == file_models(files@),
            limit == SEARCH_TEXT_BYTES,
            search_model(name@, models.take(i as int), limit) == (SearchModel {
                text: text@,
                truncated,
            }),
    {
        proof {
            assert(models.take(i + 1).drop_last() =~= models.take(i as int));
            assert(models.take(i + 1).last() == files@[i as int]@);
        }
        if !truncated && files[i].kind != FileKind::Padding {
            if let Some(path) = &files[i].path {
                if fits_line(&text, path, SEARCH_TEXT_BYTES) {
                    text.push('\n');
                    text.push_str(path.as_str());
                } else {
                    truncated = true;
                }
            }
        }
    }
    assert(models.take(models.len() as int) =~= models);
    (text, truncated)
}

/// The catalog entry of a valid info dictionary.
pub fn from_parsed(info: ParsedInfo) -> (entry: CatalogInfo)
    ensures
        entry.info == info,
        ({
            let search = search_model(
                info.name@,
                file_models(info.files@),
                SEARCH_TEXT_BYTES as int,
            );
            entry.search_text@ == search.text && entry.search_truncated == search.truncated
        }),
{
    let (search_text, search_truncated) = search_text(&info.name, &info.files);
    CatalogInfo { info, search_text, search_truncated }
}

/// The catalog entry of an info dictionary, if it is valid.
pub fn parse(bytes: &[u8]) -> (entry: Option<CatalogInfo>)
    ensures
        ({
            let outcome = judge(
                read_document(decoder_tokens(bytes@, MAX_DEPTH as nat), PARSE_BUDGET as int),
            ).1;
            match outcome {
                Ok(model) if 0 < bytes@.len() <= MAX_BYTES => {
                    let search = search_model(model.name, model.files, SEARCH_TEXT_BYTES as int);
                    &&& entry is Some
                    &&& entry->0.info@ == model
                    &&& entry->0.search_text@ == search.text
                    &&& entry->0.search_truncated == search.truncated
                },
                _ => entry is None,
            }
        }),
{
    match analyze(bytes).parsed {
        None => None,
        Some(info) => Some(from_parsed(info)),
    }
}

/// The text that is shown: what takes too many bytes is cut between two characters and ends in an
/// ellipsis.
pub open spec fn shown_text(value: Seq<char>) -> Seq<char> {
    if byte_count(value) <= DISPLAY_TEXT_BYTES {
        value
    } else {
        value.take(fitting(value, DISPLAY_TEXT_BYTES - 3) as int).push('\u{2026}')
    }
}

/// A shown text never exceeds its limit.
pub proof fn lemma_shown_text(value: Seq<char>)
    ensures
        byte_count(shown_text(value)) <= DISPLAY_TEXT_BYTES,
{
    if byte_count(value) > DISPLAY_TEXT_BYTES {
        lemma_fitting_bound(value, DISPLAY_TEXT_BYTES - 3);
        lemma_encode_push(value.take(fitting(value, DISPLAY_TEXT_BYTES - 3) as int), '\u{2026}');
        assert(vstd::utf8::encode_scalar('\u{2026}' as u32).len() == 3);
    }
}

/// What fits does fit.
proof fn lemma_fitting_bound(text: Seq<char>, limit: int)
    requires
        0 <= limit,
    ensures
        fitting(text, limit) <= text.len(),
        byte_count(text.take(fitting(text, limit) as int)) <= limit,
    decreases text.len(),
{
    if text.len() == 0 {
        assert(text.take(0) =~= text);
        assert(vstd::utf8::encode_utf8(text).len() == 0);
    } else if byte_count(text) <= limit {
        assert(text.take(text.len() as int) =~= text);
    } else {
        lemma_fitting_bound(text.drop_last(), limit);
        let n = fitting(text.drop_last(), limit) as int;
        assert(text.drop_last().take(n) =~= text.take(n));
    }
}

/// Bounds a text for display, and says whether it was cut.
pub fn truncate_display(value: &str) -> (shown: (String, bool))
    ensures
        shown.0@ == shown_text(value@),
        shown.1 == (byte_count(value@) > DISPLAY_TEXT_BYTES),
{
    if byte_len(value) <= DISPLAY_TEXT_BYTES {
        let mut whole = String::new();
        whole.push_str(value);
        assert(whole@ =~= value@);
        return (whole, false);
    }
    let ghost all = value@;
    let ghost limit = DISPLAY_TEXT_BYTES - 3;
    let mut text = String::new();
    let mut used: usize = 0;
    proof {
        assert(all.take(0) =~= text@);
        assert(vstd::utf8::encode_utf8(text@).len() == 0);
    }
    for c in it: value.chars()
        invariant
            all == value@,
            it.seq() == all,
            limit == DISPLAY_TEXT_BYTES - 3,
            byte_count(all) > DISPLAY_TEXT_BYTES,
            text@ == all.take(it.index() as int),
            used == byte_count(text@),
            used <= limit,
    {
        let ghost i = it.index() as int;
        proof {
            assert(c == all[i]);
            lemma_encode_push(all.take(i), c);
            assert(all.take(i).push(c) =~= all.take(i + 1));
        }
        let size: usize = char_bytes(c);
        if used + size > DISPLAY_TEXT_BYTES - 3 {
            proof {
                lemma_fitting(all, limit, i);
            }
            text.push('\u{2026}');
            return (text, true);
        }
        text.push(c);
        used = used + size;
    }
    proof {
        assert(all.take(all.len() as int) =~= all);
        assert(false);
    }
    (text, true)
}

/// Files are looked through in order. One that is no padding and has a path adds a line break and
/// the path where both fit; the first that does not fit ends the text, which says so. Padding and
/// files without a path change nothing, and so does anything behind the end.
pub proof fn lemma_search_grows(name: Seq<char>, files: Seq<FileModel>, file: FileModel, limit: int)
    ensures
        ({
            let before = search_model(name, files, limit);
            let after = search_model(name, files.push(file), limit);
            let whole = before.text + seq!['\n'] + file.path->0;
            let counts = !before.truncated && !(file.kind is Padding) && file.path is Some;
            let bytes = vstd::utf8::encode_utf8(before.text).len() + 1 + vstd::utf8::encode_utf8(
                file.path->0,
            ).len();
            &&& !counts ==> after == before
            &&& counts && bytes <= limit ==> after.text == whole && !after.truncated
            &&& counts && bytes > limit ==> after.text == before.text && after.truncated
        }),
        vstd::utf8::encode_utf8(name).len() <= limit ==> search_model(name, Seq::empty(), limit)
            == (SearchModel { text: name, truncated: false }),
        path_lines(Seq::empty()).len() == 0,
        path_lines(files.push(file)) == if file.kind is Padding || file.path is None {
            path_lines(files)
        } else {
            path_lines(files) + seq!['\n'] + file.path->0
        },
{
    let before = search_model(name, files, limit);
    assert(files.push(file).drop_last() =~= files);
    assert(before.text.push('\n') =~= before.text + seq!['\n']);
    assert(path_lines(files).push('\n') =~= path_lines(files) + seq!['\n']);
}

/// A text of at most four kibibytes is shown as it is. A longer one is shown as the longest of its
/// beginnings that leaves room for an ellipsis of three bytes, and the ellipsis.
pub proof fn lemma_shown_prefix(value: Seq<char>)
    ensures
        vstd::utf8::encode_utf8(value).len() <= 4096 ==> shown_text(value) == value,
        vstd::utf8::encode_utf8(value).len() > 4096 ==> {
            let n = shown_text(value).len() - 1;
            &&& 0 <= n < value.len()
            &&& shown_text(value) == value.take(n) + seq!['\u{2026}']
            &&& vstd::utf8::encode_utf8(value.take(n)).len() <= 4093
            &&& vstd::utf8::encode_utf8(value.take(n + 1)).len() > 4093
        },
{
    if byte_count(value) > 4096 {
        let n = fitting(value, DISPLAY_TEXT_BYTES - 3) as int;
        lemma_fitting_bound(value, DISPLAY_TEXT_BYTES - 3);
        lemma_fitting_most(value, DISPLAY_TEXT_BYTES - 3);
        assert(value.take(value.len() as int) =~= value);
        assert(value.take(n).push('\u{2026}') =~= value.take(n) + seq!['\u{2026}']);
    }
}

/// One character more than what fits does not.
proof fn lemma_fitting_most(text: Seq<char>, limit: int)
    requires
        0 <= limit < byte_count(text),
    ensures
        fitting(text, limit) < text.len(),
        byte_count(text.take(fitting(text, limit) as int + 1)) > limit,
    decreases text.len(),
{
    assert(vstd::utf8::encode_utf8(Seq::<char>::empty()).len() == 0);
    if text.len() == 0 {
        assert(text =~= Seq::<char>::empty());
    } else {
        let front = text.drop_last();
        if byte_count(front) > limit {
            lemma_fitting_most(front, limit);
            let n = fitting(front, limit) as int + 1;
            assert(front.take(n) =~= text.take(n));
        } else {
            assert(fitting(front, limit) == front.len());
            assert(text.take(text.len() as int) =~= text);
        }
    }
}

} // verus!
