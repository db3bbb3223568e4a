//! What the catalog stores and shows of a torrent.

use crate::bounded::{byte_count, decimal, decimal_text, padded_hex, write_hex};
use crate::catalog::search::{
    shown_text, truncate_display, CatalogInfo, SearchModel, DISPLAY_TEXT_BYTES,
};
use crate::inspection::ReadError;
use crate::metainfo::analysis::{Analysis, InfoModel, ParsedInfo};
use crate::metainfo::files::{file_models, text_model, FileKind, FileModel, TorrentFile};
use vstd::prelude::*;

verus! {

/// The columns of a catalog entry. Where the dictionary is not valid they hold placeholders, so
/// that the entry still exists.
#[derive(Debug)]
pub struct CatalogRow {
    pub parse_status: &'static str,
    pub name: Option<String>,
    pub name_truncated: bool,
    pub encoding_lossy: bool,
    pub total_length: Option<String>,
    pub file_count: Option<i64>,
    pub piece_length: Option<String>,
    pub piece_count: Option<i64>,
    pub private: Option<bool>,
    pub search_text: String,
    /// Whether a search can miss the entry: its text was cut, or there is none.
    pub search_incomplete: bool,
}

/// A count as a database integer.
pub open spec fn stored_count(n: int) -> int {
    if n > i64::MAX {
        i64::MAX as int
    } else {
        n
    }
}

/// A count as a database integer.
fn store_count(n: usize) -> (count: i64)
    ensures
        count == stored_count(n as int),
{
    if n as u128 > i64::MAX as u128 {
        i64::MAX
    } else {
        n as i64
    }
}

impl CatalogRow {
    /// Whether the row is that of a dictionary with this description and this search text.
    pub open spec fn describes(self, info: InfoModel, search: SearchModel) -> bool {
        &&& self.parse_status@ == "parsed"@
        &&& text_model(self.name) == Some(shown_text(info.name))
        &&& self.name_truncated == (byte_count(info.name) > DISPLAY_TEXT_BYTES)
        &&& self.encoding_lossy == info.encoding_lossy
        &&& text_model(self.total_length) == Some(decimal_text(info.total_length))
        &&& self.file_count is Some
        &&& self.file_count->0 == stored_count(info.files.len() as int)
        &&& text_model(self.piece_length) == Some(decimal_text(info.piece_length))
        &&& self.piece_count is Some
        &&& self.piece_count->0 == stored_count(info.piece_count)
        &&& self.private == info.private
        &&& self.search_text@ == search.text
        &&& self.search_incomplete == search.truncated
    }

    /// Whether the row is the placeholder.
    pub open spec fn is_placeholder(self) -> bool {
        &&& self.parse_status@ == "unavailable"@
        &&& self.name is None
        &&& !self.name_truncated
        &&& !self.encoding_lossy
        &&& self.total_length is None
        &&& self.file_count is None
        &&& self.piece_length is None
        &&& self.piece_count is None
        &&& self.private is None
        &&& self.search_text@.len() == 0
        &&& self.search_incomplete
    }

    /// The row of a dictionary, or the placeholder where there is no description of it.
    pub fn new(parsed: Option<CatalogInfo>) -> (row: CatalogRow)
        ensures
            match parsed {
                Some(entry) => row.describes(
                    entry.info@,
                    (SearchModel { text: entry.search_text@, truncated: entry.search_truncated }),
                ),
                None => row.is_placeholder(),
            },
    {
        match parsed {
            Some(entry) => {
                let (name, name_truncated) = truncate_display(entry.info.name.as_str());
                let file_count: i64 = store_count(entry.info.files.len());
                let piece_count: i64 = store_count(entry.info.piece_count);
                CatalogRow {
                    parse_status: "parsed",
                    name: Some(name),
                    name_truncated,
                    encoding_lossy: entry.info.encoding_lossy,
                    total_length: Some(decimal(entry.info.total_length)),
                    file_count: Some(file_count),
                    piece_length: Some(decimal(entry.info.piece_length)),
                    piece_count: Some(piece_count),
                    private: entry.info.private,
                    search_text: entry.search_text,
                    search_incomplete: entry.search_truncated,
                }
            },
            None => CatalogRow {
                parse_status: "unavailable",
                name: None,
                name_truncated: false,
                encoding_lossy: false,
                total_length: None,
                file_count: None,
                piece_length: None,
                piece_count: None,
                private: None,
                search_text: String::new(),
                search_incomplete: true,
            },
        }
    }
}

/// What the detail page shows of a torrent, apart from what is stored of its identities.
#[derive(Debug)]
pub struct TorrentDetail {
    pub format: &'static str,
    pub semantic_status: &'static str,
    pub semantic_reason: Option<&'static str>,
    pub piece_space_length: Option<String>,
    pub padding_length: Option<String>,
    pub parse_status: &'static str,
    pub name: Option<String>,
    pub name_truncated: bool,
    pub encoding_lossy: bool,
    pub total_length: Option<String>,
    pub file_count: Option<usize>,
    pub piece_length: Option<String>,
    pub piece_count: Option<usize>,
    pub private: Option<bool>,
}

impl TorrentDetail {
    /// Whether the detail shows this description.
    pub open spec fn shows(self, info: InfoModel) -> bool {
        &&& text_model(self.piece_space_length) == Some(decimal_text(info.piece_space_length))
        &&& text_model(self.padding_length) == Some(decimal_text(info.padding_length))
        &&& self.parse_status@ == "parsed"@
        &&& text_model(self.name) == Some(shown_text(info.name))
        &&& self.name_truncated == (byte_count(info.name) > DISPLAY_TEXT_BYTES)
        &&& self.encoding_lossy == info.encoding_lossy
        &&& text_model(self.total_length) == Some(decimal_text(info.total_length))
        &&& self.file_count is Some
        &&& self.file_count->0 == info.file_count
        &&& text_model(self.piece_length) == Some(decimal_text(info.piece_length))
        &&& self.piece_count is Some
        &&& self.piece_count->0 == info.piece_count
        &&& self.private == info.private
    }

    /// Whether the detail has nothing to show.
    pub open spec fn is_blank(self) -> bool {
        &&& self.piece_space_length is None
        &&& self.padding_length is None
        &&& self.parse_status@ == "unavailable"@
        &&& self.name is None
        &&& !self.name_truncated
        &&& !self.encoding_lossy
        &&& self.total_length is None
        &&& self.file_count is None
        &&& self.piece_length is None
        &&& self.piece_count is None
        &&& self.private is None
    }

    /// The detail of a torrent, from the analysis of its dictionary alone.
    pub fn new(analysis: &Analysis) -> (detail: TorrentDetail)
        ensures
            detail.format@ == analysis.format.text(),
            detail.semantic_status@ == analysis.status.text(),
            match analysis.reason {
                Some(reason) => detail.semantic_reason is Some && detail.semantic_reason->0@
                    == reason.text(),
                None => detail.semantic_reason is None,
            },
            match analysis.parsed {
                Some(info) => detail.shows(info@),
                None => detail.is_blank(),
            },
    {
        let semantic_reason = match analysis.reason {
            Some(reason) => Some(reason.label()),
            None => None,
        };
        match &analysis.parsed {
            Some(info) => {
                let (name, name_truncated) = truncate_display(info.name.as_str());
                TorrentDetail {
                    format: analysis.format.label(),
                    semantic_status: analysis.status.label(),
                    semantic_reason,
                    piece_space_length: Some(decimal(info.piece_space_length)),
                    padding_length: Some(decimal(info.padding_length)),
                    parse_status: "parsed",
                    name: Some(name),
                    name_truncated,
                    encoding_lossy: info.encoding_lossy,
                    total_length: Some(decimal(info.total_length)),
                    file_count: Some(info.file_count),
                    piece_length: Some(decimal(info.piece_length)),
                    piece_count: Some(info.piece_count),
                    private: info.private,
                }
            },
            None => TorrentDetail {
                format: analysis.format.label(),
                semantic_status: analysis.status.label(),
                semantic_reason,
                piece_space_length: None,
                padding_length: None,
                parse_status: "unavailable",
                name: None,
                name_truncated: false,
                encoding_lossy: false,
                total_length: None,
                file_count: None,
                piece_length: None,
                piece_count: None,
                private: None,
            },
        }
    }
}

/// A line of a file page.
#[derive(Debug)]
pub struct FileItem {
    pub index: usize,
    pub path: Option<String>,
    pub kind: FileKind,
    pub hidden: bool,
    pub executable: bool,
    pub symlink_path: Option<String>,
    pub sha1: Option<String>,
    pub path_truncated: bool,
    pub encoding_lossy: bool,
    pub length: String,
}

/// The model of a line.
pub struct ItemModel {
    pub index: int,
    pub path: Option<Seq<char>>,
    pub kind: FileKind,
    pub hidden: bool,
    pub executable: bool,
    pub symlink_path: Option<Seq<char>>,
    pub sha1: Option<Seq<char>>,
    pub path_truncated: bool,
    pub encoding_lossy: bool,
    pub length: Seq<char>,
}

impl View for FileItem {
    type V = ItemModel;

    open spec fn view(&self) -> ItemModel {
        ItemModel {
            index: self.index as int,
            path: text_model(self.path),
            kind: self.kind,
            hidden: self.hidden,
            executable: self.executable,
            symlink_path: text_model(self.symlink_path),
            sha1: text_model(self.sha1),
            path_truncated: self.path_truncated,
            encoding_lossy: self.encoding_lossy,
            length: self.length@,
        }
    }
}

/// The bounded form of a text that may be missing.
pub open spec fn shown_option(text: Option<Seq<char>>) -> Option<Seq<char>> {
    match text {
        Some(text) => Some(shown_text(text)),
        None => None,
    }
}

/// The line of the file at `index`.
pub open spec fn item_model(index: int, file: FileModel) -> ItemModel {
    ItemModel {
        index,
        path: shown_option(file.path),
        kind: file.kind,
        hidden: file.hidden,
        executable: file.executable,
        symlink_path: shown_option(file.symlink_path),
        sha1: file.sha1,
        path_truncated: file.path is Some && byte_count(file.path->0) > DISPLAY_TEXT_BYTES,
        encoding_lossy: file.encoding_lossy,
        length: decimal_text(file.length),
    }
}

/// The lines of all files.
pub open spec fn item_models(files: Seq<FileModel>) -> Seq<ItemModel> {
    Seq::new(files.len(), |i: int| item_model(i, files[i]))
}

/// The line of the file at `index`.
pub fn file_item(index: usize, file: &TorrentFile) -> (item: FileItem)
    ensures
        item@ == item_model(index as int, file@),
{
    let (path, path_truncated) = match &file.path {
        Some(path) => {
            let (shown, cut) = truncate_display(path.as_str());
            (Some(shown), cut)
        },
        None => (None, false),
    };
    let symlink_path = match &file.symlink_path {
        Some(path) => Some(truncate_display(path.as_str()).0),
        None => None,
    };
    let sha1 = match &file.sha1 {
        Some(text) => Some(text.clone()),
        None => None,
    };
    FileItem {
        index,
        path,
        kind: file.kind,
        hidden: file.hidden,
        executable: file.executable,
        symlink_path,
        sha1,
        path_truncated,
        encoding_lossy: file.encoding_lossy,
        length: decimal(file.length),
    }
}

/// A page of files, with the cursor of the next one.
#[derive(Debug)]
pub struct FilePage {
    pub available: bool,
    pub items: Vec<FileItem>,
    pub next: Option<String>,
}

/// The models of a page's lines.
pub open spec fn page_items(items: Seq<FileItem>) -> Seq<ItemModel> {
    items.map_values(|item: FileItem| item@)
}

/// Where a page that starts at `start` ends.
pub open spec fn page_end(start: int, limit: int, count: int) -> int {
    if start + limit < count {
        start + limit
    } else {
        count
    }
}

impl FilePage {
    /// Whether this is the page of `files` that starts at `start`.
    pub open spec fn covers(self, files: Seq<FileModel>, start: int, limit: int) -> bool {
        let end = page_end(start, limit, files.len() as int);
        &&& self.available
        &&& page_items(self.items@) == item_models(files).subrange(start, end)
        &&& text_model(self.next) == (if end < files.len() {
            Some(padded_hex(end, 16))
        } else {
            None
        })
    }
}

/// The page of files that starts at `start`. Without a description there is nothing to show; a
/// start behind the last file is refused.
pub fn file_page(parsed: Option<&ParsedInfo>, start: usize, limit: usize) -> (result: Result<
    FilePage,
    ReadError,
>)
    ensures
        match parsed {
            None => {
                &&& result is Ok
                &&& !result->Ok_0.available
                &&& result->Ok_0.items@.len() == 0
                &&& result->Ok_0.next is None
            },
            Some(info) => if start > info.files@.len() {
                result == Err::<FilePage, ReadError>(ReadError::Invalid)
            } else {
                result is Ok && result->Ok_0.covers(
                    file_models(info.files@),
                    start as int,
                    limit as int,
                )
            },
        },
{
    let info = match parsed {
        None => {
            return Ok(FilePage { available: false, items: Vec::new(), next: None });
        },
        Some(info) => info,
    };
    let count: usize = info.files.len();
    if start > count {
        return Err(ReadError::Invalid);
    }
    let ghost models = file_models(info.files@);
    let ghost lines = item_models(models);
    let end: usize = if limit < count - start {
        start + limit
    } else {
        count
    };
    let mut items: Vec<FileItem> = Vec::new();
    assert(page_items(items@) =~= lines.subrange(start as int, start as int));
    for i in start..end
        invariant
            count == info.files@.len(),
            start <= end <= count,
            models == file_models(info.files@),
            lines == item_models(models),
            page_items(items@) == lines.subrange(start as int, i as int),
    {
        let ghost before = page_items(items@);
        let item = file_item(i, &info.files[i]);
        let ghost model = item@;
        assert(models[i as int] == info.files@[i as int]@);
        items.push(item);
        assert(page_items(items@) =~= before.push(model));
        assert(lines.subrange(start as int, i + 1) =~= before.push(lines[i as int]));
    }
    let next = if end < count {
        Some(write_hex(end as u128, 16))
    } else {
        None
    };
    Ok(FilePage { available: true, items, next })
}

/// Following the cursors shows every file once, in order: a page and what its cursor leads to are
/// together what follows its start, and the cursor leads to where the page ends.
pub proof fn lemma_pages_join(files: Seq<FileModel>, start: int, limit: int)
    requires
        0 <= start <= files.len(),
        0 < limit,
        files.len() <= u64::MAX,
    ensures
        ({
            let end = page_end(start, limit, files.len() as int);
            &&& start < files.len() ==> start < end
            &&& item_models(files).subrange(start, end) + item_models(files).skip(end) =~= item_models(
                files,
            ).skip(start)
            &&& crate::bounded::cursor_number(padded_hex(end, 16)) == Some(end)
        }),
{
    let end = page_end(start, limit, files.len() as int);
    crate::bounded::lemma_cursor_read_back(end as u64);
}

/// A stored number is the number itself, or the largest that can be stored.
pub proof fn lemma_stored_count(n: int)
    ensures
        n <= i64::MAX ==> stored_count(n) == n,
        n > i64::MAX ==> stored_count(n) == i64::MAX,
{
}

/// A row that describes a torrent gives each of its fields: the name as it is shown, whether it was
/// cut at four kibibytes, the lengths in decimal, the counts, and what can be searched for.
pub proof fn lemma_row_describes(row: CatalogRow, info: InfoModel, search: SearchModel)
    requires
        row.describes(info, search),
    ensures
        row.parse_status@ == "parsed"@,
        row.name is Some && row.name->0@ == shown_text(info.name),
        row.name_truncated <==> vstd::utf8::encode_utf8(info.name).len() > 4096,
        row.encoding_lossy == info.encoding_lossy,
        row.total_length is Some && row.total_length->0@ == decimal_text(info.total_length),
        row.file_count is Some && (info.files.len() <= i64::MAX ==> row.file_count->0
            == info.files.len()),
        row.piece_length is Some && row.piece_length->0@ == decimal_text(info.piece_length),
        row.piece_count is Some && (info.piece_count <= i64::MAX ==> row.piece_count->0
            == info.piece_count),
        row.private == info.private,
        row.search_text@ == search.text,
        row.search_incomplete == search.truncated,
{
}

/// A row of a torrent that could not be described says nothing of it, and that its search text is
/// incomplete.
pub proof fn lemma_row_unavailable(row: CatalogRow)
    requires
        row.is_placeholder(),
    ensures
        row.parse_status@ == "unavailable"@,
        row.name is None && !row.name_truncated && !row.encoding_lossy,
        row.total_length is None && row.file_count is None,
        row.piece_length is None && row.piece_count is None,
        row.private is None,
        row.search_text@.len() == 0 && row.search_incomplete,
{
}

/// A listed file is shown under its number with the fields that it has: its path and its target as
/// they are shown, whether its path was cut, its length in decimal.
pub proof fn lemma_item(files: Seq<FileModel>, i: int)
    requires
        0 <= i < files.len(),
    ensures
        item_models(files).len() == files.len(),
        ({
            let (item, file) = (item_models(files)[i], files[i]);
            &&& item.index == i
            &&& item.path is Some <==> file.path is Some
            &&& file.path matches Some(path) ==> item.path == Some(shown_text(path))
                && item.path_truncated == (vstd::utf8::encode_utf8(path).len() > 4096)
            &&& file.path is None ==> !item.path_truncated
            &&& item.kind == file.kind
            &&& item.hidden == file.hidden
            &&& item.executable == file.executable
            &&& item.symlink_path is Some <==> file.symlink_path is Some
            &&& file.symlink_path matches Some(path) ==> item.symlink_path == Some(shown_text(path))
            &&& item.sha1 == file.sha1
            &&& item.encoding_lossy == file.encoding_lossy
            &&& item.length == decimal_text(file.length)
        }),
{
}

/// The model of a shown file holds each of its fields.
pub proof fn lemma_item_view(item: FileItem)
    ensures
        item@.index == item.index,
        item@.path is Some <==> item.path is Some,
        item.path matches Some(path) ==> item@.path == Some(path@),
        item@.kind == item.kind,
        item@.hidden == item.hidden,
        item@.executable == item.executable,
        item@.symlink_path is Some <==> item.symlink_path is Some,
        item.symlink_path matches Some(path) ==> item@.symlink_path == Some(path@),
        item@.sha1 is Some <==> item.sha1 is Some,
        item.sha1 matches Some(digest) ==> item@.sha1 == Some(digest@),
        item@.path_truncated == item.path_truncated,
        item@.encoding_lossy == item.encoding_lossy,
        item@.length == item.length@,
{
}

/// A page of files shows those from its start on, as many as were asked for where there are as many,
/// and names the next one where one is left.
pub proof fn lemma_page(page: FilePage, files: Seq<FileModel>, start: int, limit: int)
    requires
        page.covers(files, start, limit),
        0 <= start <= files.len(),
        0 <= limit,
    ensures
        page.available,
        page.items@.len() <= limit,
        start + page.items@.len() <= files.len(),
        page.items@.len() < limit ==> start + page.items@.len() == files.len(),
        forall|k: int|
            0 <= k < page.items@.len() ==> (#[trigger] page.items@[k])@ == item_model(
                start + k,
                files[start + k],
            ),
        page.next is None <==> start + page.items@.len() == files.len(),
        page.next matches Some(cursor) ==> cursor@ == padded_hex(start + page.items@.len(), 16),
{
    let end = page_end(start, limit, files.len() as int);
    assert(page_items(page.items@).len() == end - start);
    assert forall|k: int| 0 <= k < page.items@.len() implies (#[trigger] page.items@[k])@
        == item_model(start + k, files[start + k]) by {
        assert(page_items(page.items@)[k] == item_models(files).subrange(start, end)[k]);
    }
}

/// A detail that shows a torrent gives each of its fields, and one of a torrent without a description
/// gives none.
pub proof fn lemma_detail(detail: TorrentDetail, info: InfoModel)
    ensures
        detail.shows(info) ==> {
            &&& detail.parse_status@ == "parsed"@
            &&& detail.name is Some && detail.name->0@ == shown_text(info.name)
            &&& detail.name_truncated <==> vstd::utf8::encode_utf8(info.name).len() > 4096
            &&& detail.encoding_lossy == info.encoding_lossy
            &&& detail.total_length is Some && detail.total_length->0@ == decimal_text(
                info.total_length,
            )
            &&& detail.piece_space_length is Some && detail.piece_space_length->0@ == decimal_text(
                info.piece_space_length,
            )
            &&& detail.padding_length is Some && detail.padding_length->0@ == decimal_text(
                info.padding_length,
            )
            &&& detail.file_count is Some && detail.file_count->0 == info.file_count
            &&& detail.piece_length is Some && detail.piece_length->0@ == decimal_text(
                info.piece_length,
            )
            &&& detail.piece_count is Some && detail.piece_count->0 == info.piece_count
            &&& detail.private == info.private
        },
        detail.is_blank() ==> {
            &&& detail.parse_status@ == "unavailable"@
            &&& detail.name is None && !detail.name_truncated && !detail.encoding_lossy
            &&& detail.total_length is None && detail.piece_space_length is None
            &&& detail.padding_length is None && detail.file_count is None
            &&& detail.piece_length is None && detail.piece_count is None
            &&& detail.private is None
        },
{
}

} // verus!
