//! The file tree of the second metadata version.

use crate::bencode::{entry_trees, Entry, Tree, Value};
use crate::metainfo::fields::{
    as_pairs, bytes_field, copy_bytes, dictionary, get, is_segment, key_bytes, lookup, optional_bytes,
    segment, Pairs,
};
use crate::metainfo::files::{describe_file, file, file_models, FileKind, FileModel, TorrentFile};
use crate::metainfo::lists::{copy_path, Listing};
use crate::reason::Reason;
use crate::text::parts_view;
use vstd::prelude::*;

verus! {

/// Whether the root hash of a file has the right form: present where the file has content, and
/// thirty-two bytes long where it is present.
pub open spec fn root_fits(root: Option<Seq<u8>>, length: int) -> bool {
    match root {
        Some(bytes) => bytes.len() == 32,
        None => length == 0,
    }
}

/// The file that a leaf of the tree describes.
pub open spec fn describe_leaf(leaf: Tree, path: Seq<Seq<u8>>, budget: int) -> Listing {
    match as_pairs(leaf) {
        Err(reason) => Err(reason),
        Ok(pairs) => match describe_file(pairs, path, Some(path), budget) {
            Err(reason) => Err(reason),
            Ok((file, left)) => if file.kind is Padding {
                Err(Reason::V2PaddingFile)
            } else {
                match bytes_field(pairs, key_bytes("pieces root")) {
                    Err(reason) => Err(reason),
                    Ok(root) => if root_fits(root, file.length) {
                        Ok((seq![file], left))
                    } else {
                        Err(Reason::PiecesRoot)
                    },
                }
            },
        },
    }
}

/// The files below a directory of the tree, in the order of its keys. The empty key makes a leaf:
/// it stands alone, and never at the root.
pub open spec fn tree_listing(pairs: Pairs, path: Seq<Seq<u8>>, budget: int) -> Listing
    decreases pairs, 1int,
{
    match lookup(pairs, key_bytes("")) {
        Some(leaf) => if path.len() == 0 || pairs.len() != 1 {
            Err(Reason::FileTreeConflict)
        } else {
            describe_leaf(leaf, path, budget)
        },
        None => children_listing(pairs, path, budget),
    }
}

/// The files below the children of a directory.
pub open spec fn children_listing(pairs: Pairs, path: Seq<Seq<u8>>, budget: int) -> Listing
    decreases pairs, 0int,
{
    if pairs.len() == 0 {
        Ok((seq![], budget))
    } else {
        match children_listing(pairs.drop_last(), path, budget) {
            Err(reason) => Err(reason),
            Ok((files, left)) => {
                let pair = pairs[pairs.len() - 1];
                if !is_segment(pair.0) {
                    Err(Reason::InvalidPath)
                } else {
                    match pair.1 {
                        Tree::Dict(below) => match tree_listing(below, path.push(pair.0), left) {
                            Err(reason) => Err(reason),
                            Ok((more, rest)) => Ok((files + more, rest)),
                        },
                        _ => Err(Reason::DictionaryType),
                    }
                }
            },
        }
    }
}

/// Children that fail among the first fail as a whole, for the same reason.
proof fn lemma_children_failure(pairs: Pairs, path: Seq<Seq<u8>>, budget: int, n: int)
    requires
        0 <= n <= pairs.len(),
        children_listing(pairs.take(n), path, budget) is Err,
    ensures
        children_listing(pairs, path, budget) == children_listing(pairs.take(n), path, budget),
    decreases pairs.len(),
{
    if n == pairs.len() {
        assert(pairs.take(n) =~= pairs);
    } else {
        assert(pairs.drop_last().take(n) =~= pairs.take(n));
        lemma_children_failure(pairs.drop_last(), path, budget, n);
    }
}

/// The file that a leaf of the tree describes.
fn leaf_file(leaf: &Value, path: &Vec<Vec<u8>>, budget: &mut usize) -> (result: Result<
    TorrentFile,
    Reason,
>)
    ensures
        match describe_leaf(leaf.tree(), parts_view(path@), *old(budget) as int) {
            Ok((files, left)) => result is Ok && files == seq![result->Ok_0@] && *final(budget)
                == left,
            Err(reason) => result == Err::<TorrentFile, Reason>(reason),
        },
        *final(budget) <= *old(budget),
{
    let properties = match dictionary(leaf) {
        Ok(entries) => entries,
        Err(reason) => {
            return Err(reason);
        },
    };
    let found = match file(properties, copy_path(path), Some(copy_path(path)), budget) {
        Ok(found) => found,
        Err(reason) => {
            return Err(reason);
        },
    };
    if found.kind == FileKind::Padding {
        return Err(Reason::V2PaddingFile);
    }
    let fits = match optional_bytes(properties, "pieces root".as_bytes()) {
        Err(reason) => {
            return Err(reason);
        },
        Ok(Some(root)) => root.len() == 32,
        Ok(None) => found.length == 0,
    };
    if fits {
        Ok(found)
    } else {
        Err(Reason::PiecesRoot)
    }
}

/// Appends the files below a directory of the tree to `out`. The path of the directory is the
/// same before and after a success.
pub fn tree(
    entries: &Vec<Entry>,
    path: &mut Vec<Vec<u8>>,
    out: &mut Vec<TorrentFile>,
    budget: &mut usize,
) -> (result: Result<(), Reason>)
    ensures
        match tree_listing(entry_trees(entries@), parts_view(old(path)@), *old(budget) as int) {
            Ok((files, left)) => {
                &&& result is Ok
                &&& file_models(final(out)@) == file_models(old(out)@) + files
                &&& parts_view(final(path)@) == parts_view(old(path)@)
                &&& *final(budget) == left
            },
            Err(reason) => result == Err::<(), Reason>(reason),
        },
        *final(budget) <= *old(budget),
    decreases entries,
{
    let ghost pairs = entry_trees(entries@);
    let ghost here = parts_view(path@);
    let ghost start = *budget as int;
    let ghost earlier = file_models(out@);
    if let Some(leaf) = get(entries, "".as_bytes()) {
        if path.len() == 0 || entries.len() != 1 {
            return Err(Reason::FileTreeConflict);
        }
        match leaf_file(leaf, &*path, budget) {
            Err(reason) => Err(reason),
            Ok(found) => {
                let ghost model = found@;
                out.push(found);
                assert(file_models(out@) =~= earlier + seq![model]);
                Ok(())
            },
        }
    } else {
        assert(pairs.take(0) =~= seq![]);
        assert(earlier + seq![] =~= earlier);
        let ghost mut files: Seq<FileModel> = seq![];
        for i in 0..entries.len()
            invariant
                pairs == entry_trees(entries@),
                lookup(pairs, key_bytes("")) is None,
                start == *old(budget),
                here == parts_view(old(path)@),
                earlier == file_models(old(out)@),
                *budget <= start,
                parts_view(path@) == here,
                file_models(out@) == earlier + files,
                children_listing(pairs.take(i as int), here, start) == Ok::<
                    (Seq<FileModel>, int),
                    Reason,
                >((files, *budget as int)),
        {
            let ghost next = pairs.take(i + 1);
            proof {
                assert(next.drop_last() =~= pairs.take(i as int));
                assert(next[next.len() - 1] == pairs[i as int]);
            }
            let name = entries[i].key;
            if let Err(reason) = segment(name) {
                proof {
                    lemma_children_failure(pairs, here, start, i + 1);
                }
                return Err(reason);
            }
            path.push(copy_bytes(name));
            assert(parts_view(path@) =~= here.push(name@));
            match dictionary(&entries[i].value) {
                Err(reason) => {
                    proof {
                        lemma_children_failure(pairs, here, start, i + 1);
                    }
                    return Err(reason);
                },
                Ok(below) => {
                    assert(entries@[i as int].value == Value::Dict(*below));
                    match tree(below, path, out, budget) {
                        Err(reason) => {
                            proof {
                                lemma_children_failure(pairs, here, start, i + 1);
                            }
                            return Err(reason);
                        },
                        Ok(()) => {
                            let ghost full = parts_view(path@);
                            let _ = path.pop();
                            proof {
                                let more = children_listing(next, here, start)->Ok_0.0.skip(
                                    files.len() as int,
                                );
                                assert(earlier + files + more =~= earlier + (files + more));
                                assert(file_models(out@) =~= earlier + children_listing(
                                    next,
                                    here,
                                    start,
                                )->Ok_0.0);
                                files = children_listing(next, here, start)->Ok_0.0;
                                assert(parts_view(path@) =~= full.drop_last());
                                assert(full.drop_last() =~= here);
                            }
                        },
                    }
                },
            }
        }
        assert(pairs.take(pairs.len() as int) =~= pairs);
        Ok(())
    }
}

} // verus!
