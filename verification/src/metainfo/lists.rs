//! The two ways in which an info dictionary lists its files: the flat list and the file tree.

use crate::bencode::{entry_trees, item_trees, Entry, Tree, Value};
use crate::metainfo::fields::{
    as_pairs, bytes, bytes_field, copy_bytes, dictionary, get, has_byte, is_segment, key_bytes,
    lookup, optional_bytes, path, path_field, required, required_bytes, segment, Pairs,
};
use crate::metainfo::files::{
    attributes, describe_file, file, file_models, path_model, FileModel, TorrentFile,
};
use crate::reason::Reason;
use crate::text::{is_utf8, parts_view};
use vstd::prelude::*;

verus! {

/// Files in the order of their layout, with the budget that is left.
pub type Listing = Result<(Seq<FileModel>, int), Reason>;

/// A copy of a path.
pub fn copy_path(parts: &Vec<Vec<u8>>) -> (copy: Vec<Vec<u8>>)
    ensures
        parts_view(copy@) == parts_view(parts@),
{
    let mut copy: Vec<Vec<u8>> = Vec::new();
    for i in 0..parts.len()
        invariant
            parts_view(copy@) == parts_view(parts@).take(i as int),
    {
        let ghost before = parts_view(copy@);
        copy.push(copy_bytes(parts[i].as_slice()));
        assert(parts_view(copy@) =~= before.push(parts@[i as int]@));
        assert(parts_view(parts@).take(i + 1) =~= before.push(parts@[i as int]@));
    }
    assert(parts_view(parts@).take(parts.len() as int) =~= parts_view(parts@));
    copy
}

/// Whether every part of a path is valid UTF-8.
fn all_utf8(parts: &Vec<Vec<u8>>) -> (valid: bool)
    ensures
        valid == !crate::text::any_lossy(parts_view(parts@)),
{
    let ghost view = parts_view(parts@);
    for i in 0..parts.len()
        invariant
            view == parts_view(parts@),
            forall|k: int| 0 <= k < i ==> vstd::utf8::valid_utf8(#[trigger] view[k]),
    {
        assert(view[i as int] == parts@[i as int]@);
        if !is_utf8(parts[i].as_slice()) {
            return false;
        }
    }
    true
}

/// The value of the first field where it is valid UTF-8, else the fallback.
pub open spec fn preferred_name(utf8: Option<Seq<u8>>, fallback: Seq<u8>) -> Seq<u8> {
    match utf8 {
        Some(name) if vstd::utf8::valid_utf8(name) => name,
        _ => fallback,
    }
}

/// The raw path of an item of the flat list: `path`, else `path.utf-8`.
pub open spec fn item_path(pairs: Pairs) -> Result<Option<Seq<Seq<u8>>>, Reason> {
    if lookup(pairs, key_bytes("path")) is Some {
        path_field(pairs, key_bytes("path"))
    } else {
        path_field(pairs, key_bytes("path.utf-8"))
    }
}

/// The path of an item that is shown: `path.utf-8` where all of it is valid UTF-8, else the raw
/// path, below the name of the torrent.
pub open spec fn item_shown(
    utf8: Option<Seq<Seq<u8>>>,
    raw: Option<Seq<Seq<u8>>>,
    name: Seq<u8>,
) -> Option<Seq<Seq<u8>>> {
    let preferred = match utf8 {
        Some(parts) if !crate::text::any_lossy(parts) => Some(parts),
        _ => raw,
    };
    match preferred {
        Some(parts) => Some(seq![name] + parts),
        None => None,
    }
}

/// An item of the flat list. Only padding may do without a path.
pub open spec fn describe_item(tree: Tree, name: Seq<u8>, budget: int) -> Result<
    (FileModel, int),
    Reason,
> {
    match as_pairs(tree) {
        Err(reason) => Err(reason),
        Ok(pairs) => match attributes(pairs) {
            Err(reason) => Err(reason),
            Ok(attr) => match item_path(pairs) {
                Err(reason) => Err(reason),
                Ok(raw) => if raw is None && !attr.contains(112u8) {
                    Err(Reason::MissingPath)
                } else {
                    match path_field(pairs, key_bytes("path.utf-8")) {
                        Err(reason) => Err(reason),
                        Ok(utf8) => describe_file(
                            pairs,
                            match raw {
                                Some(parts) => parts,
                                None => seq![],
                            },
                            item_shown(utf8, raw, name),
                            budget,
                        ),
                    }
                },
            },
        },
    }
}

/// The items of the flat list, in order.
pub open spec fn describe_items(items: Seq<Tree>, name: Seq<u8>, budget: int) -> Listing
    decreases items.len(),
{
    if items.len() == 0 {
        Ok((seq![], budget))
    } else {
        match describe_items(items.drop_last(), name, budget) {
            Err(reason) => Err(reason),
            Ok((files, left)) => match describe_item(items.last(), name, left) {
                Err(reason) => Err(reason),
                Ok((file, rest)) => Ok((files.push(file), rest)),
            },
        }
    }
}

/// The files of the flat layout: the items of `files`, or the one file that the dictionary itself
/// describes. The two exclude each other.
pub open spec fn flat_listing(pairs: Pairs, budget: int) -> Listing {
    match required_bytes(pairs, key_bytes("name")) {
        Err(reason) => Err(reason),
        Ok(raw_name) => if !is_segment(raw_name) {
            Err(Reason::InvalidPath)
        } else {
            match bytes_field(pairs, key_bytes("name.utf-8")) {
                Err(reason) => Err(reason),
                Ok(utf8) => {
                    let name = preferred_name(utf8, raw_name);
                    match lookup(pairs, key_bytes("files")) {
                        None => match describe_file(
                            pairs,
                            seq![raw_name],
                            Some(seq![name]),
                            budget,
                        ) {
                            Err(reason) => Err(reason),
                            Ok((file, left)) => Ok((seq![file], left)),
                        },
                        Some(Tree::List(items)) => if lookup(pairs, key_bytes("length")) is None
                            && items.len() > 0 {
                            describe_items(items, name, budget)
                        } else {
                            Err(Reason::FileLayout)
                        },
                        Some(_) => Err(Reason::FileLayout),
                    }
                },
            }
        },
    }
}

/// Whether `files` and the budget that is left are what `expected` says.
pub open spec fn listing_result(
    result: Result<Vec<TorrentFile>, Reason>,
    left: usize,
    expected: Listing,
) -> bool {
    match expected {
        Ok((files, budget)) => result is Ok && file_models(result->Ok_0@) == files && left == budget,
        Err(reason) => result == Err::<Vec<TorrentFile>, Reason>(reason),
    }
}

/// An item of the flat list.
fn list_item(item: &Value, name: &[u8], budget: &mut usize) -> (result: Result<TorrentFile, Reason>)
    ensures
        crate::metainfo::files::file_result(
            result,
            *final(budget),
            describe_item(item.tree(), name@, *old(budget) as int),
        ),
        *final(budget) <= *old(budget),
{
    let entries = match dictionary(item) {
        Ok(entries) => entries,
        Err(reason) => {
            return Err(reason);
        },
    };
    let padding = match optional_bytes(entries, "attr".as_bytes()) {
        Err(reason) => {
            return Err(reason);
        },
        Ok(None) => false,
        Ok(Some(attr)) => has_byte(attr, 112),
    };
    let source = match get(entries, "path".as_bytes()) {
        Some(value) => Some(value),
        None => get(entries, "path.utf-8".as_bytes()),
    };
    let raw: Option<Vec<Vec<u8>>> = match source {
        None => None,
        Some(value) => match path(value) {
            Err(reason) => {
                return Err(reason);
            },
            Ok(parts) => Some(parts),
        },
    };
    if raw.is_none() && !padding {
        return Err(Reason::MissingPath);
    }
    let utf8: Option<Vec<Vec<u8>>> = match get(entries, "path.utf-8".as_bytes()) {
        None => None,
        Some(value) => match path(value) {
            Err(reason) => {
                return Err(reason);
            },
            Ok(parts) => Some(parts),
        },
    };
    let shown = shown_path(&utf8, &raw, name);
    let raw_path: Vec<Vec<u8>> = match raw {
        Some(parts) => parts,
        None => Vec::new(),
    };
    proof {
        if raw is None {
            assert(parts_view(raw_path@) =~= seq![]);
        }
    }
    file(entries, raw_path, shown, budget)
}

/// The path of an item that is shown.
fn shown_path(
    utf8: &Option<Vec<Vec<u8>>>,
    raw: &Option<Vec<Vec<u8>>>,
    name: &[u8],
) -> (shown: Option<Vec<Vec<u8>>>)
    ensures
        path_model(shown) == item_shown(path_model(*utf8), path_model(*raw), name@),
{
    let mut preferred: Option<Vec<Vec<u8>>> = match raw {
        Some(parts) => Some(copy_path(parts)),
        None => None,
    };
    if let Some(parts) = utf8 {
        if all_utf8(parts) {
            preferred = Some(copy_path(parts));
        }
    }
    match preferred {
        None => None,
        Some(mut parts) => {
            let ghost before = parts_view(parts@);
            parts.insert(0, copy_bytes(name));
            assert(parts_view(parts@) =~= seq![name@] + before);
            Some(parts)
        },
    }
}

/// A list that fails in its first items fails as a whole, for the same reason.
proof fn lemma_items_failure(items: Seq<Tree>, name: Seq<u8>, budget: int, n: int)
    requires
        0 <= n <= items.len(),
        describe_items(items.take(n), name, budget) is Err,
    ensures
        describe_items(items, name, budget) == describe_items(items.take(n), name, budget),
    decreases items.len(),
{
    if n == items.len() {
        assert(items.take(n) =~= items);
    } else {
        assert(items.drop_last().take(n) =~= items.take(n));
        lemma_items_failure(items.drop_last(), name, budget, n);
    }
}

/// The items of the flat list, in order.
fn list_items(items: &Vec<Value>, name: &[u8], budget: &mut usize) -> (result: Result<
    Vec<TorrentFile>,
    Reason,
>)
    ensures
        listing_result(
            result,
            *final(budget),
            describe_items(item_trees(items@), name@, *old(budget) as int),
        ),
        *final(budget) <= *old(budget),
{
    let ghost trees = item_trees(items@);
    let ghost start = *budget as int;
    let mut out: Vec<TorrentFile> = Vec::new();
    assert(file_models(out@) =~= seq![]);
    assert(trees.take(0) =~= seq![]);
    for i in 0..items.len()
        invariant
            trees == item_trees(items@),
            *budget <= start,
            start == *old(budget),
            describe_items(trees.take(i as int), name@, start) == Ok::<(Seq<FileModel>, int), Reason>(
                (file_models(out@), *budget as int),
            ),
    {
        proof {
            assert(trees.take(i + 1).drop_last() =~= trees.take(i as int));
            assert(trees.take(i + 1).last() == items@[i as int].tree());
        }
        match list_item(&items[i], name, budget) {
            Err(reason) => {
                proof {
                    lemma_items_failure(trees, name@, start, i + 1);
                }
                return Err(reason);
            },
            Ok(item) => {
                let ghost before = file_models(out@);
                let ghost model = item@;
                out.push(item);
                assert(file_models(out@) =~= before.push(model));
            },
        }
    }
    assert(trees.take(trees.len() as int) =~= trees);
    Ok(out)
}

/// The files of the flat layout.
pub fn v1_files(entries: &Vec<Entry>, budget: &mut usize) -> (result: Result<
    Vec<TorrentFile>,
    Reason,
>)
    ensures
        listing_result(
            result,
            *final(budget),
            flat_listing(entry_trees(entries@), *old(budget) as int),
        ),
        *final(budget) <= *old(budget),
{
    let raw_name = match required(entries, "name".as_bytes()) {
        Err(reason) => {
            return Err(reason);
        },
        Ok(value) => match bytes(value) {
            Err(reason) => {
                return Err(reason);
            },
            Ok(name) => name,
        },
    };
    if let Err(reason) = segment(raw_name) {
        return Err(reason);
    }
    let name = match optional_bytes(entries, "name.utf-8".as_bytes()) {
        Err(reason) => {
            return Err(reason);
        },
        Ok(Some(name)) => if is_utf8(name) {
            name
        } else {
            raw_name
        },
        Ok(None) => raw_name,
    };
    match get(entries, "files".as_bytes()) {
        None => {
            let raw_path: Vec<Vec<u8>> = vec![copy_bytes(raw_name)];
            let shown: Vec<Vec<u8>> = vec![copy_bytes(name)];
            assert(parts_view(raw_path@) =~= seq![raw_name@]);
            assert(parts_view(shown@) =~= seq![name@]);
            match file(entries, raw_path, Some(shown), budget) {
                Err(reason) => Err(reason),
                Ok(single) => {
                    let ghost model = single@;
                    let mut out: Vec<TorrentFile> = Vec::new();
                    out.push(single);
                    assert(file_models(out@) =~= seq![model]);
                    Ok(out)
                },
            }
        },
        Some(Value::List(items)) => {
            proof {
                crate::bencode::lemma_list_tree(*items);
            }
            if get(entries, "length".as_bytes()).is_none() && items.len() > 0 {
                list_items(items, name, budget)
            } else {
                Err(Reason::FileLayout)
            }
        },
        Some(_) => Err(Reason::FileLayout),
    }
}

} // verus!
