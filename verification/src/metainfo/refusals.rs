//! Why a dictionary is refused: for every fault that a document can have, the reason that is given.

use crate::bencode::{
    decoded_as, key_position, number_value, read_document, read_items, read_pairs, read_value,
    value_span, Decoded, Read, TokenModel, Tree,
};
use crate::metainfo::analysis::{
    describe_files, describe_info, judge, listed_files, piece_size, privacy, raw_name, tree_files,
    Analysis, Format, InfoModel,
};
use crate::metainfo::fields::{
    as_bytes, as_integer, as_pairs, as_path, bytes_field, integer_field, length_field, lookup,
    path_field, path_parts, required_bytes, required_field, Pairs,
};
use crate::metainfo::files::{describe_file, file_result, FileModel, TorrentFile};
use crate::metainfo::hybrid::{layouts_agree, regular_files};
use crate::metainfo::layout::{aligned_space, flat_pieces, full_size};
use crate::metainfo::lists::{describe_item, describe_items, flat_listing, listing_result};
use crate::metainfo::meaning::{
    is_legal_name, leads_to, lemma_legal_name, lemma_path_value, named_attributes, spells_path,
};
use crate::metainfo::trees::{children_listing, describe_leaf, tree_listing};
use crate::order::bytes_before;
use crate::reason::Reason;
use vstd::prelude::*;
use vstd::utf8::{encode_utf8, valid_utf8};

verus! {

/// A value of the wrong type is refused for its type, a field that must be there for being missing,
/// and a length for being negative.
pub proof fn lemma_field_refusals(pairs: Pairs, key: Seq<u8>, value: Tree)
    ensures
        as_pairs(value) == match value {
            Tree::Dict(below) => Ok::<Pairs, Reason>(below),
            _ => Err(Reason::DictionaryType),
        },
        as_bytes(value) == match value {
            Tree::Bytes(bytes) => Ok::<Seq<u8>, Reason>(bytes),
            _ => Err(Reason::BytesType),
        },
        as_integer(value) == match value {
            Tree::Integer(n) => Ok::<int, Reason>(n),
            _ => Err(Reason::IntegerType),
        },
        required_field(pairs, key) == match lookup(pairs, key) {
            Some(found) => Ok::<Tree, Reason>(found),
            None => Err(Reason::MissingField),
        },
        required_bytes(pairs, key) == match lookup(pairs, key) {
            Some(Tree::Bytes(bytes)) => Ok::<Seq<u8>, Reason>(bytes),
            Some(_) => Err(Reason::BytesType),
            None => Err(Reason::MissingField),
        },
        length_field(pairs, key) == match lookup(pairs, key) {
            Some(Tree::Integer(n)) => if n >= 0 {
                Ok::<int, Reason>(n)
            } else {
                Err(Reason::NegativeLength)
            },
            Some(_) => Err(Reason::IntegerType),
            None => Err(Reason::MissingField),
        },
        bytes_field(pairs, key) == match lookup(pairs, key) {
            Some(Tree::Bytes(bytes)) => Ok::<Option<Seq<u8>>, Reason>(Some(bytes)),
            Some(_) => Err(Reason::BytesType),
            None => Ok(None),
        },
        integer_field(pairs, key) == match lookup(pairs, key) {
            Some(Tree::Integer(n)) => Ok::<Option<int>, Reason>(Some(n)),
            Some(_) => Err(Reason::IntegerType),
            None => Ok(None),
        },
{
}

/// A path must be a list with at least one part. The first part that is no byte string, or that is
/// no legal name, decides why the path is refused.
pub proof fn lemma_path_refusals(value: Tree, items: Seq<Tree>, at: int)
    requires
        0 <= at < items.len(),
        forall|i: int|
            0 <= i < at ==> (#[trigger] items[i] matches Tree::Bytes(part) && is_legal_name(part)),
        items[at] matches Tree::Bytes(part) ==> !is_legal_name(part),
    ensures
        !(value is List) ==> as_path(value) == Err::<Seq<Seq<u8>>, Reason>(Reason::PathType),
        as_path(Tree::List(Seq::empty())) == Err::<Seq<Seq<u8>>, Reason>(Reason::EmptyPath),
        as_path(Tree::List(items)) == Err::<Seq<Seq<u8>>, Reason>(
            if items[at] is Bytes {
                Reason::InvalidPath
            } else {
                Reason::BytesType
            },
        ),
    decreases items.len(),
{
    if at + 1 == items.len() {
        let front = items.drop_last();
        let parts = Seq::new(at as nat, |i: int| items[i]->Bytes_0);
        lemma_legal_name(items[at]->Bytes_0);
        assert forall|i: int| 0 <= i < at implies #[trigger] front[i] == Tree::Bytes(parts[i])
            && is_legal_name(parts[i]) by {
            assert(items[i] is Bytes);
        }
        if at > 0 {
            assert(spells_path(Tree::List(front), parts));
            lemma_path_value(Tree::List(front), parts);
        } else {
            assert(path_parts(front) == Ok::<Seq<Seq<u8>>, Reason>(seq![]));
        }
    } else {
        let front = items.drop_last();
        assert forall|i: int| 0 <= i < at implies (#[trigger] front[i] matches Tree::Bytes(part)
            && is_legal_name(part)) by {
            assert(front[i] == items[i]);
        }
        lemma_path_refusals(value, front, at);
    }
}

/// A field that holds a path may be missing, and is refused as the path is.
pub proof fn lemma_path_field(pairs: Pairs, key: Seq<u8>)
    ensures
        lookup(pairs, key) is None ==> path_field(pairs, key) == Ok::<
            Option<Seq<Seq<u8>>>,
            Reason,
        >(None),
        lookup(pairs, key) matches Some(value) ==> match as_path(value) {
            Ok(parts) => path_field(pairs, key) == Ok::<Option<Seq<Seq<u8>>>, Reason>(Some(parts)),
            Err(reason) => path_field(pairs, key) == Err::<Option<Seq<Seq<u8>>>, Reason>(reason),
        },
{
}

/// The fields of a file are looked at one after the other: its attributes, its length, the target of
/// a link, its digest. The first that is wrong decides why the file is refused.
pub proof fn lemma_file_refusals(
    pairs: Pairs,
    raw_path: Seq<Seq<u8>>,
    shown: Option<Seq<Seq<u8>>>,
    budget: int,
)
    ensures
        ({
            let result = describe_file(pairs, raw_path, shown, budget);
            let refused = |reason: Reason| result == Err::<(FileModel, int), Reason>(reason);
            let attr = lookup(pairs, encode_utf8("attr"@));
            let letters = named_attributes(pairs);
            let link = letters.contains('l' as u8);
            let length = lookup(pairs, encode_utf8("length"@));
            let target = lookup(pairs, encode_utf8("symlink path"@));
            let digest = lookup(pairs, encode_utf8("sha1"@));
            let attr_ok = (attr is Some ==> attr->0 is Bytes) && !(link && letters.contains(
                'p' as u8,
            ));
            let length_ok = (length is None && link) || (length matches Some(Tree::Integer(n)) && n
                >= 0 && (link ==> n == 0));
            let target_ok = link ==> target is Some && as_path(target->0) is Ok;
            &&& attr is Some && !(attr->0 is Bytes) ==> refused(Reason::BytesType)
            &&& (attr is Some ==> attr->0 is Bytes) && !attr_ok ==> refused(Reason::FileAttributes)
            &&& attr_ok && !link && length is None ==> refused(Reason::MissingField)
            &&& attr_ok && length is Some && !(length->0 is Integer) ==> refused(
                Reason::IntegerType,
            )
            &&& attr_ok && (length matches Some(Tree::Integer(n)) && n < 0) ==> refused(
                Reason::NegativeLength,
            )
            &&& attr_ok && link && (length matches Some(Tree::Integer(n)) && n > 0) ==> refused(
                Reason::SymlinkLength,
            )
            &&& attr_ok && length_ok && link && target is None ==> refused(Reason::MissingField)
            &&& attr_ok && length_ok && link && target is Some && as_path(target->0) is Err
                ==> refused(as_path(target->0)->Err_0)
            &&& attr_ok && length_ok && target_ok && digest is Some && !(digest->0 is Bytes)
                ==> refused(Reason::BytesType)
            &&& attr_ok && length_ok && target_ok && (digest matches Some(Tree::Bytes(bytes))
                && bytes.len() != 20) ==> refused(Reason::FileSha1Length)
        }),
{
}

/// An item of the flat list must be a dictionary. One that is no padding must have a path, under
/// either of its keys, and both are read where both are there.
pub proof fn lemma_item_refusals(item: Tree, name: Seq<u8>, budget: int)
    ensures
        ({
            let result = describe_item(item, name, budget);
            let refused = |reason: Reason| result == Err::<(FileModel, int), Reason>(reason);
            &&& !(item is Dict) ==> refused(Reason::DictionaryType)
            &&& item matches Tree::Dict(pairs) ==> {
                let attr = lookup(pairs, encode_utf8("attr"@));
                let plain = lookup(pairs, encode_utf8("path"@));
                let utf8 = lookup(pairs, encode_utf8("path.utf-8"@));
                let attr_ok = attr is Some ==> attr->0 is Bytes;
                let plain_ok = plain is Some ==> as_path(plain->0) is Ok;
                &&& !attr_ok ==> refused(Reason::BytesType)
                &&& attr_ok && !plain_ok ==> refused(as_path(plain->0)->Err_0)
                &&& attr_ok && plain_ok && utf8 is Some && as_path(utf8->0) is Err ==> refused(
                    as_path(utf8->0)->Err_0,
                )
                &&& attr_ok && plain is None && utf8 is None && !named_attributes(pairs).contains(
                    'p' as u8,
                ) ==> refused(Reason::MissingPath)
                &&& attr_ok && plain_ok && (plain is Some || utf8 is Some || named_attributes(
                    pairs,
                ).contains('p' as u8)) && (utf8 is Some ==> as_path(utf8->0) is Ok) ==> {
                    let raw = if plain is Some {
                        Some(as_path(plain->0)->Ok_0)
                    } else if utf8 is Some {
                        Some(as_path(utf8->0)->Ok_0)
                    } else {
                        None
                    };
                    let valid = utf8 is Some && forall|i: int|
                        0 <= i < as_path(utf8->0)->Ok_0.len() ==> valid_utf8(
                            #[trigger] as_path(utf8->0)->Ok_0[i],
                        );
                    let shown = if valid {
                        Some(as_path(utf8->0)->Ok_0)
                    } else {
                        raw
                    };
                    result == describe_file(
                        pairs,
                        match raw {
                            Some(parts) => parts,
                            None => Seq::empty(),
                        },
                        match shown {
                            Some(parts) => Some(seq![name] + parts),
                            None => None,
                        },
                        budget,
                    )
                }
            }
        }),
{
}

/// The flat list needs a name that is legal, and either a list of files or a length, not both. The
/// first item that is refused decides why the list is.
pub proof fn lemma_flat_refusals(pairs: Pairs, budget: int)
    ensures
        ({
            let result = flat_listing(pairs, budget);
            let refused = |reason: Reason|
                result == Err::<(Seq<FileModel>, int), Reason>(reason);
            let name = lookup(pairs, encode_utf8("name"@));
            let utf8 = lookup(pairs, encode_utf8("name.utf-8"@));
            let files = lookup(pairs, encode_utf8("files"@));
            let name_ok = (name matches Some(Tree::Bytes(bytes)) && is_legal_name(bytes)) && (utf8
                is Some ==> utf8->0 is Bytes);
            &&& name is None ==> refused(Reason::MissingField)
            &&& name is Some && !(name->0 is Bytes) ==> refused(Reason::BytesType)
            &&& (name matches Some(Tree::Bytes(bytes)) && !is_legal_name(bytes)) ==> refused(
                Reason::InvalidPath,
            )
            &&& (name matches Some(Tree::Bytes(bytes)) && is_legal_name(bytes)) && utf8 is Some
                && !(utf8->0 is Bytes) ==> refused(Reason::BytesType)
            &&& name_ok && files is Some && (!(files->0 is List) || files->0->List_0.len() == 0
                || lookup(pairs, encode_utf8("length"@)) is Some) ==> refused(Reason::FileLayout)
            &&& name_ok ==> {
                let raw = name->0->Bytes_0;
                let shown = match utf8 {
                    Some(Tree::Bytes(bytes)) if valid_utf8(bytes) => bytes,
                    _ => raw,
                };
                &&& files is None ==> match describe_file(
                    pairs,
                    seq![raw],
                    Some(seq![shown]),
                    budget,
                ) {
                    Ok((file, left)) => result == Ok::<(Seq<FileModel>, int), Reason>(
                        (seq![file], left),
                    ),
                    Err(reason) => refused(reason),
                }
                &&& (files matches Some(Tree::List(items)) && items.len() > 0 && lookup(
                    pairs,
                    encode_utf8("length"@),
                ) is None) ==> result == describe_items(files->0->List_0, shown, budget)
            }
        }),
{
    if let Some(Tree::Bytes(bytes)) = lookup(pairs, encode_utf8("name"@)) {
        lemma_legal_name(bytes);
    }
}

/// The first item that is refused decides why a list of items is.
pub proof fn lemma_first_item_refused(items: Seq<Tree>, item: Tree, name: Seq<u8>, budget: int)
    ensures
        describe_items(Seq::empty(), name, budget) == Ok::<(Seq<FileModel>, int), Reason>(
            (Seq::empty(), budget),
        ),
        match describe_items(items, name, budget) {
            Err(reason) => describe_items(items.push(item), name, budget) == Err::<
                (Seq<FileModel>, int),
                Reason,
            >(reason),
            Ok((files, left)) => match describe_item(item, name, left) {
                Err(reason) => describe_items(items.push(item), name, budget) == Err::<
                    (Seq<FileModel>, int),
                    Reason,
                >(reason),
                Ok((file, rest)) => describe_items(items.push(item), name, budget) == Ok::<
                    (Seq<FileModel>, int),
                    Reason,
                >((files.push(file), rest)),
            },
        },
{
    assert(items.push(item).drop_last() =~= items);
}

/// A leaf of the tree is a file with the root of its pieces. It is no padding, and only an empty
/// file may leave the root out.
pub proof fn lemma_leaf_refusals(leaf: Tree, path: Seq<Seq<u8>>, budget: int)
    ensures
        ({
            let result = describe_leaf(leaf, path, budget);
            let refused = |reason: Reason|
                result == Err::<(Seq<FileModel>, int), Reason>(reason);
            &&& !(leaf is Dict) ==> refused(Reason::DictionaryType)
            &&& leaf matches Tree::Dict(pairs) ==> match describe_file(
                pairs,
                path,
                Some(path),
                budget,
            ) {
                Err(reason) => refused(reason),
                Ok((file, left)) => {
                    let root = lookup(pairs, encode_utf8("pieces root"@));
                    let root_ok = (root is None && file.length == 0) || (root matches Some(
                        Tree::Bytes(bytes),
                    ) && bytes.len() == 32);
                    &&& file.kind is Padding ==> refused(Reason::V2PaddingFile)
                    &&& !(file.kind is Padding) && root is Some && !(root->0 is Bytes) ==> refused(
                        Reason::BytesType,
                    )
                    &&& !(file.kind is Padding) && !root_ok && (root is Some ==> root->0 is Bytes)
                        ==> refused(Reason::PiecesRoot)
                    &&& !(file.kind is Padding) && root_ok ==> result == Ok::<
                        (Seq<FileModel>, int),
                        Reason,
                    >((seq![file], left))
                },
            }
        }),
{
}

/// An empty key marks a file. It stands alone and never at the top of the tree; any other key is a
/// legal name of a dictionary below.
pub proof fn lemma_tree_refusals(pairs: Pairs, path: Seq<Seq<u8>>, budget: int)
    ensures
        ({
            let result = tree_listing(pairs, path, budget);
            let refused = |reason: Reason|
                result == Err::<(Seq<FileModel>, int), Reason>(reason);
            &&& match lookup(pairs, Seq::empty()) {
                Some(leaf) => {
                    &&& path.len() == 0 || pairs.len() > 1 ==> refused(Reason::FileTreeConflict)
                    &&& path.len() > 0 && pairs.len() == 1 ==> result == describe_leaf(
                        leaf,
                        path,
                        budget,
                    )
                },
                None => result == children_listing(pairs, path, budget),
            }
        }),
        children_listing(Seq::empty(), path, budget) == Ok::<(Seq<FileModel>, int), Reason>(
            (Seq::empty(), budget),
        ),
{
    assert(encode_utf8(""@) =~= Seq::<u8>::empty()) by {
        reveal_strlit("");
        assert(""@ =~= Seq::<char>::empty());
    }
    if lookup(pairs, Seq::empty()) is Some {
        assert(pairs.len() > 0);
    }
}

/// The children of a tree are listed in their order, each with its name behind the path above.
pub proof fn lemma_next_child(
    pairs: Pairs,
    key: Seq<u8>,
    child: Tree,
    path: Seq<Seq<u8>>,
    budget: int,
)
    ensures
        ({
            let all = children_listing(pairs.push((key, child)), path, budget);
            let refused = |reason: Reason| all == Err::<(Seq<FileModel>, int), Reason>(reason);
            match children_listing(pairs, path, budget) {
                Err(reason) => refused(reason),
                Ok((files, left)) => {
                    &&& !is_legal_name(key) ==> refused(Reason::InvalidPath)
                    &&& is_legal_name(key) && !(child is Dict) ==> refused(Reason::DictionaryType)
                    &&& is_legal_name(key) && child is Dict ==> match tree_listing(
                        child->Dict_0,
                        path.push(key),
                        left,
                    ) {
                        Err(reason) => refused(reason),
                        Ok((more, rest)) => all == Ok::<(Seq<FileModel>, int), Reason>(
                            (files + more, rest),
                        ),
                    }
                },
            }
        }),
{
    let all = pairs.push((key, child));
    assert(all.drop_last() =~= pairs);
    assert(all[all.len() - 1] == (key, child));
    lemma_legal_name(key);
}

/// The tree must be a dictionary under `file tree`, and must hold a file.
pub proof fn lemma_tree_field(pairs: Pairs, budget: int)
    ensures
        ({
            let result = tree_files(pairs, budget);
            let refused = |reason: Reason|
                result == Err::<(Seq<FileModel>, int), Reason>(reason);
            match lookup(pairs, encode_utf8("file tree"@)) {
                None => refused(Reason::MissingField),
                Some(Tree::Dict(below)) => match tree_listing(below, Seq::empty(), budget) {
                    Err(reason) => refused(reason),
                    Ok((files, left)) => {
                        &&& files.len() == 0 ==> refused(Reason::EmptyFileTree)
                        &&& files.len() > 0 ==> result == Ok::<(Seq<FileModel>, int), Reason>(
                            (files, left),
                        )
                    },
                },
                Some(_) => refused(Reason::DictionaryType),
            }
        }),
{
}

/// The hashes of a flat list are twenty bytes for each piece of all its files.
pub proof fn lemma_pieces_refusals(pairs: Pairs, files: Seq<FileModel>, piece: int)
    requires
        0 < piece,
        0 <= full_size(files),
    ensures
        ({
            let result = flat_pieces(pairs, files, piece);
            let pieces = lookup(pairs, encode_utf8("pieces"@));
            &&& pieces is None ==> result == Err::<int, Reason>(Reason::MissingField)
            &&& pieces is Some && !(pieces->0 is Bytes) ==> result == Err::<int, Reason>(
                Reason::BytesType,
            )
            &&& pieces matches Some(Tree::Bytes(hashes)) ==> {
                let count = hashes.len() as int / 20;
                let fits = hashes.len() == 20 * count && piece * (count - 1) < full_size(files)
                    <= piece * count;
                &&& full_size(files) > u64::MAX ==> result == Err::<int, Reason>(
                    Reason::LengthOverflow,
                )
                &&& full_size(files) <= u64::MAX && !fits ==> result == Err::<int, Reason>(
                    Reason::PieceCount,
                )
                &&& full_size(files) <= u64::MAX && fits ==> result == Ok::<int, Reason>(count)
            }
        }),
{
    if let Some(Tree::Bytes(hashes)) = lookup(pairs, encode_utf8("pieces"@)) {
        crate::metainfo::meaning::lemma_piece_count(
            full_size(files),
            piece,
            hashes.len() as int / 20,
        );
    }
}

/// The length of a piece is positive; where files have trees of hashes it is a power of two of at
/// least sixteen kibibytes. The private flag is zero or one.
pub proof fn lemma_number_refusals(pairs: Pairs, trees: bool)
    ensures
        ({
            let size = piece_size(pairs, trees);
            let fits = |n: int|
                n > 0 && (trees ==> n >= 16 * 1024 && vstd::arithmetic::power2::is_pow2(n));
            match lookup(pairs, encode_utf8("piece length"@)) {
                None => size == Err::<int, Reason>(Reason::MissingField),
                Some(Tree::Integer(n)) => {
                    &&& n < 0 ==> size == Err::<int, Reason>(Reason::NegativeLength)
                    &&& n >= 0 && !fits(n) ==> size == Err::<int, Reason>(Reason::PieceLength)
                    &&& fits(n) ==> size == Ok::<int, Reason>(n)
                },
                Some(_) => size == Err::<int, Reason>(Reason::IntegerType),
            }
        }),
        match lookup(pairs, encode_utf8("private"@)) {
            None => privacy(pairs) == Ok::<Option<bool>, Reason>(None),
            Some(Tree::Integer(n)) => {
                &&& n == 0 ==> privacy(pairs) == Ok::<Option<bool>, Reason>(Some(false))
                &&& n == 1 ==> privacy(pairs) == Ok::<Option<bool>, Reason>(Some(true))
                &&& n != 0 && n != 1 ==> privacy(pairs) == Err::<Option<bool>, Reason>(
                    Reason::PrivateFlag,
                )
            },
            Some(_) => privacy(pairs) == Err::<Option<bool>, Reason>(Reason::IntegerType),
        },
{
}

/// A plain torrent has the files of its list, one with trees those of its tree. A hybrid has both:
/// the list is read with what the tree left of the budget, its hashes must fit, and both layouts
/// must agree; its files are those of the list.
pub proof fn lemma_listing_by_format(pairs: Pairs, piece: int, budget: int)
    ensures
        match flat_listing(pairs, budget) {
            Ok((files, _)) => listed_files(pairs, Format::V1, piece, budget) == Ok::<
                Seq<FileModel>,
                Reason,
            >(files),
            Err(reason) => listed_files(pairs, Format::V1, piece, budget) == Err::<
                Seq<FileModel>,
                Reason,
            >(reason),
        },
        match tree_files(pairs, budget) {
            Ok((files, _)) => listed_files(pairs, Format::V2, piece, budget) == Ok::<
                Seq<FileModel>,
                Reason,
            >(files),
            Err(reason) => listed_files(pairs, Format::V2, piece, budget) == Err::<
                Seq<FileModel>,
                Reason,
            >(reason) && listed_files(pairs, Format::Hybrid, piece, budget) == Err::<
                Seq<FileModel>,
                Reason,
            >(reason),
        },
        tree_files(pairs, budget) matches Ok((tree, left)) ==> {
            let hybrid = listed_files(pairs, Format::Hybrid, piece, budget);
            let refused = |reason: Reason| hybrid == Err::<Seq<FileModel>, Reason>(reason);
            match flat_listing(pairs, left) {
                Err(reason) => refused(reason),
                Ok((flat, _)) => match flat_pieces(pairs, flat, piece) {
                    Err(reason) => refused(reason),
                    Ok(_) => match layouts_agree(flat, tree, piece) {
                        Err(reason) => refused(reason),
                        Ok(()) => hybrid == Ok::<Seq<FileModel>, Reason>(flat),
                    },
                },
            }
        },
{
}

/// What a dictionary describes has the files that it lists, and the first of its name, its piece
/// length, its private flag and its list that is refused decides why it is.
pub proof fn lemma_info_refusals(pairs: Pairs, format: Format, budget: int)
    ensures
        ({
            let result = describe_info(pairs, format, budget);
            let refused = |reason: Reason| result == Err::<InfoModel, Reason>(reason);
            let trees = format is V2 || format is Hybrid;
            match raw_name(pairs) {
                Err(reason) => refused(reason),
                Ok(_) => match piece_size(pairs, trees) {
                    Err(reason) => refused(reason),
                    Ok(piece) => match privacy(pairs) {
                        Err(reason) => refused(reason),
                        Ok(_) => match listed_files(pairs, format, piece, budget) {
                            Err(reason) => refused(reason),
                            Ok(files) => result matches Ok(model) ==> model.files == files,
                        },
                    },
                },
            }
        }),
        ({
            let name = lookup(pairs, encode_utf8("name"@));
            let utf8 = lookup(pairs, encode_utf8("name.utf-8"@));
            let bytes_only = (name is Some ==> name->0 is Bytes) && (utf8 is Some ==> utf8->0
                is Bytes);
            &&& raw_name(pairs) is Ok <==> bytes_only
            &&& !bytes_only ==> raw_name(pairs) == Err::<Seq<u8>, Reason>(Reason::BytesType)
        }),
{
}

/// Whole layouts are refused where their space outgrows the largest number, where one path is or
/// lies below another, and where a link leads nowhere.
pub proof fn lemma_layout_refusals(
    pairs: Pairs,
    format: Format,
    name: Seq<u8>,
    piece: int,
    private: Option<bool>,
    files: Seq<FileModel>,
    i: int,
    j: int,
)
    requires
        0 <= i < regular_files(files).len(),
        0 <= j < regular_files(files).len(),
        i != j,
        leads_to(regular_files(files)[i].raw_path, regular_files(files)[j].raw_path),
    ensures
        ({
            let result = describe_files(pairs, format, name, piece, private, files);
            let space = if format is V2 {
                aligned_space(files, piece)
            } else {
                full_size(files)
            };
            &&& space > u64::MAX ==> result == Err::<InfoModel, Reason>(Reason::LengthOverflow)
            &&& space <= u64::MAX && format is V2 ==> result == Err::<InfoModel, Reason>(
                Reason::PathConflict,
            )
            &&& space <= u64::MAX && !(format is V2) && flat_pieces(pairs, files, piece) is Ok
                ==> result == Err::<InfoModel, Reason>(Reason::PathConflict)
            &&& space <= u64::MAX && !(format is V2) && flat_pieces(pairs, files, piece) is Err
                ==> result == Err::<InfoModel, Reason>(flat_pieces(pairs, files, piece)->Err_0)
        }),
{
    lemma_content_paths(files);
    let paths = crate::metainfo::paths::content_paths(files);
    lemma_path_within(paths[i], paths[j]);
    assert(crate::order::path_within(paths[i], paths[j]));
}

/// A link that leads to none of the files, nor to a directory above one, is refused as such where
/// nothing else is wrong.
pub proof fn lemma_dangling_refused(
    pairs: Pairs,
    format: Format,
    name: Seq<u8>,
    piece: int,
    private: Option<bool>,
    files: Seq<FileModel>,
    link: int,
)
    requires
        0 <= link < files.len(),
        files[link].raw_target is Some,
        forall|j: int|
            0 <= j < regular_files(files).len() ==> !leads_to(
                files[link].raw_target->0,
                (#[trigger] regular_files(files)[j]).raw_path,
            ),
    ensures
        ({
            let result = describe_files(pairs, format, name, piece, private, files);
            &&& result is Err
            &&& (result == Err::<InfoModel, Reason>(Reason::DanglingSymlink)) || (result == Err::<
                InfoModel,
                Reason,
            >(Reason::PathConflict)) || (result == Err::<InfoModel, Reason>(Reason::LengthOverflow))
                || (!(format is V2) && flat_pieces(pairs, files, piece) is Err)
        }),
{
    lemma_content_paths(files);
    let paths = crate::metainfo::paths::content_paths(files);
    let target = files[link].raw_target->0;
    assert(!crate::metainfo::paths::leads_somewhere(target, paths)) by {
        assert forall|j: int| 0 <= j < paths.len() implies !crate::order::path_within(
            target,
            #[trigger] paths[j],
        ) by {
            assert(!leads_to(target, regular_files(files)[j].raw_path));
            lemma_path_within(target, paths[j]);
        }
    }
}

/// The paths that are compared are those of the files that are not padding.
proof fn lemma_content_paths(files: Seq<FileModel>)
    ensures
        crate::metainfo::paths::content_paths(files).len() == regular_files(files).len(),
        forall|i: int|
            0 <= i < regular_files(files).len() ==> #[trigger] crate::metainfo::paths::content_paths(
                files,
            )[i] == regular_files(files)[i].raw_path,
    decreases files.len(),
{
    if files.len() > 0 {
        lemma_content_paths(files.drop_last());
    }
}

proof fn lemma_path_within(a: Seq<Seq<u8>>, b: Seq<Seq<u8>>)
    ensures
        crate::order::path_within(a, b) <==> leads_to(a, b),
{
    if leads_to(a, b) {
        assert(b.take(a.len() as int) =~= a);
    }
    if crate::order::path_within(a, b) {
        assert forall|k: int| 0 <= k < a.len() implies #[trigger] a[k] == b[k] by {
            assert(b.take(a.len() as int)[k] == b[k]);
        }
    }
}

/// A document that cannot be read, is no dictionary or is of an unknown version has no format; any
/// other keeps its format also where it is refused.
pub proof fn lemma_judged(read: Read)
    ensures
        match read {
            Read::Failed(reason) => judge(read) == (
                Format::Unknown,
                Err::<InfoModel, Reason>(reason),
            ),
            Read::Done(Tree::Dict(pairs), _, budget) => match lookup(
                pairs,
                encode_utf8("meta version"@),
            ) {
                None => judge(read) == (Format::V1, describe_info(pairs, Format::V1, budget)),
                Some(Tree::Integer(n)) => {
                    &&& n != 2 ==> judge(read) == (
                        Format::Unknown,
                        Err::<InfoModel, Reason>(Reason::UnsupportedMetaVersion),
                    )
                    &&& n == 2 && lookup(pairs, encode_utf8("pieces"@)) is Some ==> judge(read) == (
                        Format::Hybrid,
                        describe_info(pairs, Format::Hybrid, budget),
                    )
                    &&& n == 2 && lookup(pairs, encode_utf8("pieces"@)) is None ==> judge(read) == (
                        Format::V2,
                        describe_info(pairs, Format::V2, budget),
                    )
                },
                Some(_) => judge(read) == (
                    Format::Unknown,
                    Err::<InfoModel, Reason>(Reason::IntegerType),
                ),
            },
            Read::Done(_, _, _) => judge(read) == (
                Format::Unknown,
                Err::<InfoModel, Reason>(Reason::DictionaryType),
            ),
        },
{
}

/// An analysis is valid exactly where it has a description, and else has a reason; only an unknown
/// version makes it unsupported rather than invalid.
pub proof fn lemma_reported(
    analysis: Analysis,
    format: Format,
    outcome: Result<InfoModel, Reason>,
)
    requires
        analysis.reports(format, outcome),
    ensures
        analysis.format == format,
        analysis.status is Valid <==> outcome is Ok,
        analysis.parsed is Some <==> outcome is Ok,
        analysis.reason is Some <==> outcome is Err,
        analysis.parsed matches Some(info) ==> Ok::<InfoModel, Reason>(info@) == outcome,
        analysis.reason matches Some(reason) ==> Err::<InfoModel, Reason>(reason) == outcome,
        analysis.status is Unsupported <==> outcome == Err::<InfoModel, Reason>(
            Reason::UnsupportedMetaVersion,
        ),
{
}

/// A value that cannot be read is refused: where there is none, where it costs more than ninety-six
/// of the budget are left for, and where a number is none or does not fit in sixty-four bits.
pub proof fn lemma_value_refusals(tokens: Seq<TokenModel>, at: int, budget: int)
    ensures
        ({
            let result = read_value(tokens, at, budget);
            let there = 0 <= at < tokens.len() && !(tokens[at] is End) && !(tokens[at] is Invalid);
            &&& !there ==> result == Read::Failed(Reason::InvalidBencode)
            &&& there && budget < 96 ==> result == Read::Failed(Reason::SemanticCapacity)
            &&& there && budget >= 96 ==> match tokens[at] {
                TokenModel::Bytes(bytes) => result == Read::Done(
                    Tree::Bytes(bytes),
                    at + 1,
                    budget - 96,
                ),
                TokenModel::Number(text) => match number_value(text) {
                    Some(n) if -0x8000_0000_0000_0000 <= n < 0x8000_0000_0000_0000 => result
                        == Read::Done(Tree::Integer(n), at + 1, budget - 96),
                    _ => result == Read::Failed(Reason::IntegerRange),
                },
                TokenModel::List => result == read_items(
                    tokens,
                    at + 1,
                    budget - 96,
                    Seq::empty(),
                ),
                _ => result == read_pairs(tokens, at + 1, budget - 96, Seq::empty()),
            }
        }),
{
}

/// The pairs of a dictionary may come in any order and are kept by their keys. A key that is there
/// already refuses the dictionary, and so does anything but a byte string in the place of a key.
pub proof fn lemma_next_pair(
    tokens: Seq<TokenModel>,
    at: int,
    budget: int,
    pairs: Pairs,
    slot: int,
)
    requires
        crate::metainfo::laws::keys_ascend(pairs),
        0 <= at < tokens.len(),
        0 <= slot <= pairs.len(),
        tokens[at] matches TokenModel::Bytes(key) ==> {
            &&& forall|i: int| 0 <= i < slot ==> !bytes_before(key, (#[trigger] pairs[i]).0)
            &&& forall|i: int| slot <= i < pairs.len() ==> bytes_before(key, (#[trigger] pairs[i]).0)
        },
    ensures
        ({
            let result = read_pairs(tokens, at, budget, pairs);
            match tokens[at] {
                TokenModel::End => result == Read::Done(Tree::Dict(pairs), at + 1, budget),
                TokenModel::Bytes(key) => match read_value(tokens, at + 1, budget) {
                    Read::Failed(reason) => result == Read::Failed(reason),
                    Read::Done(value, behind, left) => {
                        &&& (exists|i: int| 0 <= i < pairs.len() && (#[trigger] pairs[i]).0 == key)
                            ==> result == Read::Failed(Reason::DuplicateKey)
                        &&& (forall|i: int| 0 <= i < pairs.len() ==> (#[trigger] pairs[i]).0 != key)
                            && at < behind <= tokens.len() ==> result == read_pairs(
                            tokens,
                            behind,
                            left,
                            pairs.insert(slot, (key, value)),
                        )
                    },
                },
                _ => result == Read::Failed(Reason::InvalidBencode),
            }
        }),
{
    if let TokenModel::Bytes(key) = tokens[at] {
        crate::metainfo::laws::lemma_slot(pairs, key);
        let found = crate::bencode::key_slot(pairs, key);
        if found < slot {
            assert(bytes_before(key, pairs[found].0));
        } else if slot < found {
            assert(bytes_before(key, pairs[slot].0));
        }
        if exists|i: int| 0 <= i < pairs.len() && (#[trigger] pairs[i]).0 == key {
            let i = choose|i: int| 0 <= i < pairs.len() && (#[trigger] pairs[i]).0 == key;
            crate::order::lemma_bytes_irreflexive(key);
            assert(i < slot);
            if i < slot - 1 {
                assert(bytes_before(pairs[i].0, pairs[slot - 1].0));
            }
        }
    }
}

/// A list takes one value after the other until it ends. A value that cannot be read refuses it, and
/// so does the end of the document.
pub proof fn lemma_next_item(tokens: Seq<TokenModel>, at: int, budget: int, items: Seq<Tree>)
    ensures
        ({
            let result = read_items(tokens, at, budget, items);
            let there = 0 <= at < tokens.len();
            &&& !there ==> result == Read::Failed(Reason::InvalidBencode)
            &&& there && tokens[at] is End ==> result == Read::Done(
                Tree::List(items),
                at + 1,
                budget,
            )
            &&& there && !(tokens[at] is End) ==> match read_value(tokens, at, budget) {
                Read::Failed(reason) => result == Read::Failed(reason),
                Read::Done(item, behind, left) => at < behind <= tokens.len() ==> result
                    == read_items(tokens, behind, left, items.push(item)),
            }
        }),
        !(0 <= at < tokens.len()) ==> read_pairs(tokens, at, budget, Seq::empty()) == Read::Failed(
            Reason::InvalidBencode,
        ),
{
}

/// A document is one value. Nothing at all is no dictionary, and what follows the value is refused as
/// trailing where it can be read, and else as broken.
pub proof fn lemma_document_refusals(tokens: Seq<TokenModel>, budget: int)
    ensures
        read_document(Seq::empty(), budget) == Read::Failed(Reason::MissingDictionary),
        tokens.len() > 0 ==> match read_value(tokens, 0, budget) {
            Read::Failed(reason) => read_document(tokens, budget) == Read::Failed(reason),
            Read::Done(tree, behind, left) => {
                &&& behind >= tokens.len() ==> read_document(tokens, budget) == Read::Done(
                    tree,
                    behind,
                    left,
                )
                &&& 0 <= behind < tokens.len() && (tokens[behind] is End || tokens[behind]
                    is Invalid) ==> read_document(tokens, budget) == Read::Failed(
                    Reason::InvalidBencode,
                )
                &&& 0 <= behind < tokens.len() && !(tokens[behind] is End || tokens[behind]
                    is Invalid) ==> read_document(tokens, budget) == Read::Failed(
                    Reason::TrailingData,
                )
            },
        },
{
}

/// A value that is skipped holds no broken token, and ends where as many lists and dictionaries have
/// ended as began.
pub proof fn lemma_span_tokens(tokens: Seq<TokenModel>, at: int, open: nat, i: int)
    ensures
        value_span(tokens, at, open) matches Some(behind) ==> {
            &&& 0 <= at < behind <= tokens.len()
            &&& at <= i < behind ==> !(tokens[i] is Invalid)
            &&& open > 0 ==> tokens[behind - 1] is End
        },
        0 <= at < tokens.len() ==> match tokens[at] {
            TokenModel::Invalid => value_span(tokens, at, open) is None,
            TokenModel::End => {
                &&& open == 0 ==> value_span(tokens, at, open) is None
                &&& open == 1 ==> value_span(tokens, at, open) == Some(at + 1)
            },
            _ => true,
        },
        !(0 <= at < tokens.len()) ==> value_span(tokens, at, open) is None,
    decreases tokens.len() - at,
{
    if 0 <= at < tokens.len() {
        match tokens[at] {
            TokenModel::Invalid => {},
            TokenModel::List => lemma_span_tokens(tokens, at + 1, open + 1, i),
            TokenModel::Dict => lemma_span_tokens(tokens, at + 1, open + 1, i),
            TokenModel::End => if open > 1 {
                lemma_span_tokens(tokens, at + 1, (open - 1) as nat, i);
            },
            _ => if open > 0 {
                lemma_span_tokens(tokens, at + 1, open, i);
            },
        }
    }
}

/// A key is searched for pair by pair, and is not found behind anything but a key with a value.
pub proof fn lemma_key_search(tokens: Seq<TokenModel>, at: int, key: Seq<u8>)
    ensures
        0 <= at < tokens.len() && tokens[at] == TokenModel::Bytes(key) ==> key_position(
            tokens,
            at,
            key,
        ) == Some(at + 1),
        0 <= at < tokens.len() && !(tokens[at] is Bytes) ==> key_position(tokens, at, key) is None,
        0 <= at < tokens.len() && tokens[at] is Bytes && tokens[at] != TokenModel::Bytes(key)
            ==> match value_span(tokens, at + 1, 0) {
            Some(behind) => at < behind <= tokens.len() ==> key_position(tokens, at, key)
                == key_position(tokens, behind, key),
            None => key_position(tokens, at, key) is None,
        },
        !(0 <= at < tokens.len()) ==> key_position(tokens, at, key) is None,
{
}

/// A result is what was expected of it: the value with what is left, or the reason.
pub proof fn lemma_results(
    decoded: Result<Decoded, Reason>,
    read: Read,
    file: Result<TorrentFile, Reason>,
    files: Result<Vec<TorrentFile>, Reason>,
    left: usize,
    expected: Result<(FileModel, int), Reason>,
    listing: Result<(Seq<FileModel>, int), Reason>,
)
    ensures
        decoded_as(decoded, read) <==> match read {
            Read::Failed(reason) => decoded == Err::<Decoded, Reason>(reason),
            Read::Done(tree, behind, budget) => decoded matches Ok(found) && found.value.tree()
                == tree && found.behind == behind && found.budget == budget,
        },
        file_result(file, left, expected) <==> match expected {
            Err(reason) => file == Err::<TorrentFile, Reason>(reason),
            Ok((model, budget)) => file matches Ok(found) && found@ == model && left == budget,
        },
        listing_result(files, left, listing) ==> match listing {
            Err(reason) => files == Err::<Vec<TorrentFile>, Reason>(reason),
            Ok((models, budget)) => files matches Ok(found) && found@.len() == models.len() && left
                == budget && forall|i: int|
                0 <= i < models.len() ==> models[i] == (#[trigger] found@[i])@,
        },
{
}

} // verus!
