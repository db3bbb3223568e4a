//! The files that an info dictionary lists.

use crate::bencode::{entry_trees, Entry};
use crate::metainfo::fields::{
    as_path, bytes, bytes_field, charge, copy_bytes, get, has_byte, key_bytes, length, length_field,
    lookup, optional_bytes, path, required, required_field, Pairs,
};
use crate::reason::Reason;
use crate::text::{any_lossy, display_path, hex, hex_text, joined_text, parts_view};
use vstd::prelude::*;

verus! {

/// What an entry of the file list stands for.
#[derive(Clone, Copy, Debug, PartialEq, Eq, Structural)]
pub enum FileKind {
    File,
    Padding,
    Symlink,
}

impl FileKind {
    /// The stable label of a kind.
    pub open spec fn text(self) -> Seq<char> {
        match self {
            FileKind::File => "file"@,
            FileKind::Padding => "padding"@,
            FileKind::Symlink => "symlink"@,
        }
    }

    /// The stable label of the kind.
    pub fn label(self) -> (label: &'static str)
        ensures
            label@ == self.text(),
    {
        match self {
            FileKind::File => "file",
            FileKind::Padding => "padding",
            FileKind::Symlink => "symlink",
        }
    }
}

/// A file of a torrent. The raw paths take part in every comparison, the shown ones in none.
#[derive(Debug)]
pub struct TorrentFile {
    pub path: Option<String>,
    pub length: u64,
    pub encoding_lossy: bool,
    pub kind: FileKind,
    pub hidden: bool,
    pub executable: bool,
    pub symlink_path: Option<String>,
    pub sha1: Option<String>,
    pub raw_path: Vec<Vec<u8>>,
    pub raw_target: Option<Vec<Vec<u8>>>,
}

/// The model of a file.
pub struct FileModel {
    pub path: Option<Seq<char>>,
    pub length: int,
    pub encoding_lossy: bool,
    pub kind: FileKind,
    pub hidden: bool,
    pub executable: bool,
    pub symlink_path: Option<Seq<char>>,
    pub sha1: Option<Seq<char>>,
    pub raw_path: Seq<Seq<u8>>,
    pub raw_target: Option<Seq<Seq<u8>>>,
}

/// The characters of a text that may be missing.
pub open spec fn text_model(text: Option<String>) -> Option<Seq<char>> {
    match text {
        Some(text) => Some(text@),
        None => None,
    }
}

/// The parts of a path that may be missing.
pub open spec fn path_model(path: Option<Vec<Vec<u8>>>) -> Option<Seq<Seq<u8>>> {
    match path {
        Some(parts) => Some(parts_view(parts@)),
        None => None,
    }
}

impl View for TorrentFile {
    type V = FileModel;

    open spec fn view(&self) -> FileModel {
        FileModel {
            path: text_model(self.path),
            length: self.length as int,
            encoding_lossy: self.encoding_lossy,
            kind: self.kind,
            hidden: self.hidden,
            executable: self.executable,
            symlink_path: text_model(self.symlink_path),
            sha1: text_model(self.sha1),
            raw_path: parts_view(self.raw_path@),
            raw_target: path_model(self.raw_target),
        }
    }
}

/// The models of a list of files.
pub open spec fn file_models(files: Seq<TorrentFile>) -> Seq<FileModel> {
    files.map_values(|file: TorrentFile| file@)
}

/// The number of bytes in all parts of a path.
pub open spec fn parts_size(parts: Seq<Seq<u8>>) -> int
    decreases parts.len(),
{
    if parts.len() == 0 {
        0
    } else {
        parts_size(parts.drop_last()) + parts.last().len()
    }
}

/// What a file takes from the budget for its raw paths.
pub open spec fn raw_cost(raw_path: Seq<Seq<u8>>, raw_target: Option<Seq<Seq<u8>>>) -> int {
    256 + 32 * raw_path.len() + 8 * parts_size(raw_path) + match raw_target {
        Some(target) => 8 * parts_size(target),
        None => 0,
    }
}

/// What a file takes from the budget for the path that is shown.
pub open spec fn shown_cost(shown: Option<Seq<Seq<u8>>>) -> int {
    match shown {
        Some(parts) => 2 * (parts_size(parts) + parts.len()),
        None => 0,
    }
}

/// The attributes of a file, none where the field is missing.
pub open spec fn attributes(pairs: Pairs) -> Result<Seq<u8>, Reason> {
    match bytes_field(pairs, key_bytes("attr")) {
        Ok(Some(bytes)) => Ok(bytes),
        Ok(None) => Ok(seq![]),
        Err(reason) => Err(reason),
    }
}

/// The kind that the attributes name: `p` is padding, else `l` is a symbolic link.
pub open spec fn kind_of(attr: Seq<u8>) -> FileKind {
    if attr.contains(112u8) {
        FileKind::Padding
    } else if attr.contains(108u8) {
        FileKind::Symlink
    } else {
        FileKind::File
    }
}

/// The length of a file. A symbolic link has none, and need not say so.
pub open spec fn file_length(pairs: Pairs, kind: FileKind) -> Result<int, Reason> {
    if kind is Symlink && lookup(pairs, key_bytes("length")) is None {
        Ok(0)
    } else {
        match length_field(pairs, key_bytes("length")) {
            Err(reason) => Err(reason),
            Ok(n) => if kind is Symlink && n != 0 {
                Err(Reason::SymlinkLength)
            } else {
                Ok(n)
            },
        }
    }
}

/// The target of a symbolic link.
pub open spec fn file_target(pairs: Pairs, kind: FileKind) -> Result<
    Option<Seq<Seq<u8>>>,
    Reason,
> {
    if kind is Symlink {
        match required_field(pairs, key_bytes("symlink path")) {
            Err(reason) => Err(reason),
            Ok(tree) => match as_path(tree) {
                Err(reason) => Err(reason),
                Ok(parts) => Ok(Some(parts)),
            },
        }
    } else {
        Ok(None)
    }
}

/// The digest of a file in hexadecimal.
pub open spec fn file_digest(pairs: Pairs) -> Result<Option<Seq<char>>, Reason> {
    match bytes_field(pairs, key_bytes("sha1")) {
        Err(reason) => Err(reason),
        Ok(None) => Ok(None),
        Ok(Some(bytes)) => if bytes.len() == 20 {
            Ok(Some(hex_text(bytes)))
        } else {
            Err(Reason::FileSha1Length)
        },
    }
}

/// The file that `pairs` describe, with the budget that is left.
pub open spec fn describe_file(
    pairs: Pairs,
    raw_path: Seq<Seq<u8>>,
    shown: Option<Seq<Seq<u8>>>,
    budget: int,
) -> Result<(FileModel, int), Reason> {
    match attributes(pairs) {
        Err(reason) => Err(reason),
        Ok(attr) => if attr.contains(112u8) && attr.contains(108u8) {
            Err(Reason::FileAttributes)
        } else {
            let kind = kind_of(attr);
            match file_length(pairs, kind) {
                Err(reason) => Err(reason),
                Ok(length) => match file_target(pairs, kind) {
                    Err(reason) => Err(reason),
                    Ok(raw_target) => match file_digest(pairs) {
                        Err(reason) => Err(reason),
                        Ok(sha1) => {
                            let left = budget - raw_cost(raw_path, raw_target) - shown_cost(shown);
                            if left < 0 {
                                Err(Reason::SemanticCapacity)
                            } else {
                                Ok(
                                    (
                                        FileModel {
                                            path: match shown {
                                                Some(parts) => Some(joined_text(parts)),
                                                None => None,
                                            },
                                            length,
                                            encoding_lossy: shown is Some && any_lossy(shown->0),
                                            kind,
                                            hidden: attr.contains(104u8),
                                            executable: attr.contains(120u8),
                                            symlink_path: match raw_target {
                                                Some(parts) => Some(joined_text(parts)),
                                                None => None,
                                            },
                                            sha1,
                                            raw_path,
                                            raw_target,
                                        },
                                        left,
                                    ),
                                )
                            }
                        },
                    },
                },
            }
        },
    }
}

/// A path is never shorter than nothing.
proof fn lemma_parts_size(parts: Seq<Seq<u8>>)
    ensures
        parts_size(parts) >= 0,
    decreases parts.len(),
{
    if parts.len() > 0 {
        lemma_parts_size(parts.drop_last());
    }
}

/// Every file takes something from the budget.
pub proof fn lemma_costs(
    raw_path: Seq<Seq<u8>>,
    raw_target: Option<Seq<Seq<u8>>>,
    shown: Option<Seq<Seq<u8>>>,
)
    ensures
        raw_cost(raw_path, raw_target) > 0,
        shown_cost(shown) >= 0,
{
    lemma_parts_size(raw_path);
    if raw_target is Some {
        lemma_parts_size(raw_target->0);
    }
    if shown is Some {
        lemma_parts_size(shown->0);
    }
}

/// Longer prefixes of a path are not smaller.
proof fn lemma_parts_size_grows(parts: Seq<Seq<u8>>, n: int)
    requires
        0 <= n <= parts.len(),
    ensures
        parts_size(parts.take(n)) <= parts_size(parts),
    decreases parts.len(),
{
    if n < parts.len() {
        assert(parts.drop_last().take(n) =~= parts.take(n));
        lemma_parts_size_grows(parts.drop_last(), n);
    } else {
        assert(parts.take(n) =~= parts);
    }
}

/// The number of bytes in all parts, or the largest number where that is larger.
fn count_parts(parts: &Vec<Vec<u8>>) -> (size: usize)
    ensures
        size == (if parts_size(parts_view(parts@)) > usize::MAX {
            usize::MAX as int
        } else {
            parts_size(parts_view(parts@))
        }),
{
    let ghost view = parts_view(parts@);
    let mut size: usize = 0;
    assert(view.take(0) =~= seq![]);
    for i in 0..parts.len()
        invariant
            view == parts_view(parts@),
            size == parts_size(view.take(i as int)),
    {
        proof {
            assert(view.take(i + 1).drop_last() =~= view.take(i as int));
            assert(view.take(i + 1).last() == parts@[i as int]@);
            lemma_parts_size_grows(view, i + 1);
        }
        match size.checked_add(parts[i].len()) {
            Some(sum) => {
                size = sum;
            },
            None => {
                return usize::MAX;
            },
        }
    }
    assert(view.take(view.len() as int) =~= view);
    size
}

/// Takes an amount that may not fit in a `usize` from the budget.
fn charge_wide(budget: &mut usize, amount: u128) -> (result: Result<(), Reason>)
    ensures
        amount <= *old(budget) ==> result is Ok && *final(budget) == *old(budget) - amount,
        amount > *old(budget) ==> result == Err::<(), Reason>(Reason::SemanticCapacity)
            && *final(budget) == *old(budget),
{
    if amount > *budget as u128 {
        Err(Reason::SemanticCapacity)
    } else {
        charge(budget, amount as usize)
    }
}

/// Takes the cost of a file's paths from the budget.
fn charge_file(
    raw_path: &Vec<Vec<u8>>,
    raw_target: &Option<Vec<Vec<u8>>>,
    shown: &Option<Vec<Vec<u8>>>,
    budget: &mut usize,
) -> (result: Result<(), Reason>)
    ensures
        ({
            let left = *old(budget) - raw_cost(parts_view(raw_path@), path_model(*raw_target))
                - shown_cost(path_model(*shown));
            if left < 0 {
                result == Err::<(), Reason>(Reason::SemanticCapacity)
            } else {
                result is Ok && *final(budget) == left
            }
        }),
        *final(budget) <= *old(budget),
{
    proof {
        lemma_parts_size(parts_view(raw_path@));
        if raw_target is Some {
            lemma_parts_size(parts_view(raw_target->0@));
        }
        if shown is Some {
            lemma_parts_size(parts_view(shown->0@));
        }
    }
    let target_size: usize = match raw_target {
        Some(parts) => count_parts(parts),
        None => 0,
    };
    let raw_amount: u128 = 256 + 32 * (raw_path.len() as u128) + 8 * (count_parts(raw_path) as u128) + 8
        * (target_size as u128);
    if let Err(reason) = charge_wide(budget, raw_amount) {
        return Err(reason);
    }
    let shown_amount: u128 = match shown {
        Some(parts) => 2 * (count_parts(parts) as u128 + parts.len() as u128),
        None => 0,
    };
    charge_wide(budget, shown_amount)
}

/// The path that is shown and whether it is lossy.
fn show_path(parts: &Option<Vec<Vec<u8>>>) -> (shown: (Option<String>, bool))
    ensures
        text_model(shown.0) == (match path_model(*parts) {
            Some(parts) => Some(joined_text(parts)),
            None => None,
        }),
        shown.1 == (path_model(*parts) is Some && any_lossy(path_model(*parts)->0)),
{
    match parts {
        Some(parts) => {
            let (text, lossy) = display_path(parts.as_slice());
            (Some(text), lossy)
        },
        None => (None, false),
    }
}

/// What an outcome of one file must be.
pub open spec fn file_result(
    result: Result<TorrentFile, Reason>,
    left: usize,
    expected: Result<(FileModel, int), Reason>,
) -> bool {
    match expected {
        Ok((model, budget)) => result is Ok && result->Ok_0@ == model && left == budget,
        Err(reason) => result == Err::<TorrentFile, Reason>(reason),
    }
}

/// The target of a symbolic link.
fn link_target(entries: &Vec<Entry>, kind: FileKind) -> (result: Result<
    Option<Vec<Vec<u8>>>,
    Reason,
>)
    ensures
        match file_target(entry_trees(entries@), kind) {
            Ok(target) => result is Ok && path_model(result->Ok_0) == target,
            Err(reason) => result == Err::<Option<Vec<Vec<u8>>>, Reason>(reason),
        },
{
    if kind == FileKind::Symlink {
        match required(entries, "symlink path".as_bytes()) {
            Err(reason) => Err(reason),
            Ok(value) => match path(value) {
                Err(reason) => Err(reason),
                Ok(parts) => Ok(Some(parts)),
            },
        }
    } else {
        Ok(None)
    }
}

/// The digest of a file in hexadecimal.
fn digest_text(entries: &Vec<Entry>) -> (result: Result<Option<String>, Reason>)
    ensures
        match file_digest(entry_trees(entries@)) {
            Ok(text) => result is Ok && text_model(result->Ok_0) == text,
            Err(reason) => result == Err::<Option<String>, Reason>(reason),
        },
{
    match optional_bytes(entries, "sha1".as_bytes()) {
        Err(reason) => Err(reason),
        Ok(None) => Ok(None),
        Ok(Some(bytes)) => if bytes.len() == 20 {
            Ok(Some(hex(bytes)))
        } else {
            Err(Reason::FileSha1Length)
        },
    }
}

/// The length of a file.
fn stated_length(entries: &Vec<Entry>, kind: FileKind) -> (result: Result<u64, Reason>)
    ensures
        match file_length(entry_trees(entries@), kind) {
            Ok(n) => result is Ok && result->Ok_0 == n,
            Err(reason) => result == Err::<u64, Reason>(reason),
        },
{
    if kind == FileKind::Symlink && get(entries, "length".as_bytes()).is_none() {
        return Ok(0);
    }
    match length(entries, "length".as_bytes()) {
        Err(reason) => Err(reason),
        Ok(n) => if kind == FileKind::Symlink && n != 0 {
            Err(Reason::SymlinkLength)
        } else {
            Ok(n)
        },
    }
}

/// The attributes of a file, none where the field is missing.
fn attribute_bytes(entries: &Vec<Entry>) -> (result: Result<Vec<u8>, Reason>)
    ensures
        match attributes(entry_trees(entries@)) {
            Ok(attr) => result is Ok && result->Ok_0@ == attr,
            Err(reason) => result == Err::<Vec<u8>, Reason>(reason),
        },
{
    match optional_bytes(entries, "attr".as_bytes()) {
        Err(reason) => Err(reason),
        Ok(None) => Ok(Vec::new()),
        Ok(Some(bytes)) => Ok(copy_bytes(bytes)),
    }
}

/// The file that `entries` describe. Its raw path and the path that is shown come from the
/// layout that lists it.
pub fn file(
    entries: &Vec<Entry>,
    raw_path: Vec<Vec<u8>>,
    shown: Option<Vec<Vec<u8>>>,
    budget: &mut usize,
) -> (result: Result<TorrentFile, Reason>)
    ensures
        file_result(
            result,
            *final(budget),
            describe_file(
                entry_trees(entries@),
                parts_view(raw_path@),
                path_model(shown),
                *old(budget) as int,
            ),
        ),
        *final(budget) <= *old(budget),
{
    let attr = match attribute_bytes(entries) {
        Ok(attr) => attr,
        Err(reason) => {
            return Err(reason);
        },
    };
    let padding = has_byte(attr.as_slice(), 112);
    let link = has_byte(attr.as_slice(), 108);
    if padding && link {
        return Err(Reason::FileAttributes);
    }
    let kind = if padding {
        FileKind::Padding
    } else if link {
        FileKind::Symlink
    } else {
        FileKind::File
    };
    let length: u64 = match stated_length(entries, kind) {
        Ok(length) => length,
        Err(reason) => {
            return Err(reason);
        },
    };
    let raw_target = match link_target(entries, kind) {
        Ok(target) => target,
        Err(reason) => {
            return Err(reason);
        },
    };
    let sha1 = match digest_text(entries) {
        Ok(text) => text,
        Err(reason) => {
            return Err(reason);
        },
    };
    if let Err(reason) = charge_file(&raw_path, &raw_target, &shown, budget) {
        return Err(reason);
    }
    let (path, encoding_lossy) = show_path(&shown);
    let (symlink_path, _) = show_path(&raw_target);
    Ok(
        TorrentFile {
            path,
            length,
            encoding_lossy,
            kind,
            hidden: has_byte(attr.as_slice(), 104),
            executable: has_byte(attr.as_slice(), 120),
            symlink_path,
            sha1,
            raw_path,
            raw_target,
        },
    )
}

/// The model of a file holds each of its fields.
pub proof fn lemma_file_view(file: TorrentFile)
    ensures
        file@.path is Some <==> file.path is Some,
        file.path matches Some(path) ==> file@.path == Some(path@),
        file@.length == file.length,
        file@.encoding_lossy == file.encoding_lossy,
        file@.kind == file.kind,
        file@.hidden == file.hidden,
        file@.executable == file.executable,
        file@.symlink_path is Some <==> file.symlink_path is Some,
        file.symlink_path matches Some(path) ==> file@.symlink_path == Some(path@),
        file@.sha1 is Some <==> file.sha1 is Some,
        file.sha1 matches Some(digest) ==> file@.sha1 == Some(digest@),
        file@.raw_path.len() == file.raw_path@.len(),
        forall|i: int|
            0 <= i < file.raw_path@.len() ==> file@.raw_path[i] == (#[trigger] file.raw_path@[i])@,
        file@.raw_target is Some <==> file.raw_target is Some,
        file.raw_target matches Some(target) ==> {
            &&& file@.raw_target->0.len() == target@.len()
            &&& forall|i: int|
                0 <= i < target@.len() ==> file@.raw_target->0[i] == (#[trigger] target@[i])@
        },
        FileKind::File.text() == "file"@,
        FileKind::Padding.text() == "padding"@,
        FileKind::Symlink.text() == "symlink"@,
{
}

/// A list of files is modelled file by file.
pub proof fn lemma_file_models(files: Seq<TorrentFile>)
    ensures
        file_models(files).len() == files.len(),
        forall|i: int| 0 <= i < files.len() ==> file_models(files)[i] == (#[trigger] files[i])@,
{
}

/// What a file costs: two hundred and fifty-six, thirty-two for each part of its path and eight for
/// each byte of it and of its target, and for what is shown two for each byte and each part.
pub proof fn lemma_cost_grows(path: Seq<Seq<u8>>, part: Seq<u8>, target: Seq<Seq<u8>>)
    ensures
        raw_cost(Seq::empty(), None) == 256,
        raw_cost(path.push(part), None) == raw_cost(path, None) + 32 + 8 * part.len(),
        raw_cost(path, Some(Seq::empty())) == raw_cost(path, None),
        raw_cost(path, Some(target.push(part))) == raw_cost(path, Some(target)) + 8 * part.len(),
        shown_cost(None) == 0,
        shown_cost(Some(Seq::empty())) == 0,
        shown_cost(Some(path.push(part))) == shown_cost(Some(path)) + 2 * (part.len() + 1),
{
    assert(path.push(part).drop_last() =~= path);
    assert(target.push(part).drop_last() =~= target);
}

} // verus!
