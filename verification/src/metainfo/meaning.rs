//! What the fields of an info dictionary mean: for every description that the library gives of a
//! dictionary, what stands in the dictionary itself.

use crate::bencode::Tree;
use crate::metainfo::analysis::{describe_info, format_of, Format, InfoModel};
use crate::metainfo::fields::{as_path, lookup, path_field, path_parts, Pairs};
use crate::metainfo::files::{describe_file, raw_cost, shown_cost, FileModel};
use crate::metainfo::hybrid::regular_files;
use crate::metainfo::layout::{
    aligned_pieces, aligned_space, content_count, content_size, full_size, lemma_boundary, padding_size,
    pieces_for,
};
use crate::metainfo::lists::{describe_item, describe_items, flat_listing};
use crate::metainfo::paths::{content_paths, has_dangling_link, in_conflict};
use crate::reason::Reason;
use crate::text::{any_lossy, display_text, hex_text, joined_text};
use vstd::prelude::*;
use vstd::utf8::{encode_utf8, valid_utf8};

verus! {

/// A key is found exactly where it stands in the dictionary, and with the value that stands with it.
pub proof fn lemma_lookup(pairs: Pairs, key: Seq<u8>)
    ensures
        lookup(pairs, key) is None <==> forall|i: int|
            0 <= i < pairs.len() ==> (#[trigger] pairs[i]).0 != key,
        lookup(pairs, key) matches Some(value) ==> exists|i: int|
            {
                &&& 0 <= i < pairs.len()
                &&& #[trigger] pairs[i] == (key, value)
                &&& forall|j: int| 0 <= j < i ==> (#[trigger] pairs[j]).0 != key
            },
    decreases pairs.len(),
{
    if pairs.len() > 0 {
        let rest = pairs.drop_first();
        lemma_lookup(rest, key);
        if pairs[0].0 != key {
            match lookup(rest, key) {
                None => {
                    assert forall|i: int| 0 <= i < pairs.len() implies (#[trigger] pairs[i]).0
                        != key by {
                        if i > 0 {
                            assert(rest[i - 1] == pairs[i]);
                        }
                    }
                },
                Some(value) => {
                    let k = choose|k: int|
                        {
                            &&& 0 <= k < rest.len()
                            &&& #[trigger] rest[k] == (key, value)
                            &&& forall|j: int| 0 <= j < k ==> (#[trigger] rest[j]).0 != key
                        };
                    assert(pairs[k + 1] == (key, value));
                    assert forall|j: int| 0 <= j < k + 1 implies (#[trigger] pairs[j]).0 != key by {
                        if j > 0 {
                            assert(rest[j - 1] == pairs[j]);
                        }
                    }
                },
            }
        } else {
            assert(pairs[0] == (key, pairs[0].1));
        }
    }
}

/// Whether a byte string can be the name of a file or of a directory.
pub open spec fn is_legal_name(name: Seq<u8>) -> bool {
    &&& name.len() > 0
    &&& name != seq!['.' as u8]
    &&& name != seq!['.' as u8, '.' as u8]
    &&& forall|i: int|
        0 <= i < name.len() ==> #[trigger] name[i] != '/' as u8 && name[i] != '\\' as u8 && name[i]
            != 0
}

/// Whether a value is the list of these names, each of them legal, and at least one.
pub open spec fn spells_path(value: Tree, parts: Seq<Seq<u8>>) -> bool {
    &&& value matches Tree::List(items)
    &&& items.len() == parts.len()
    &&& parts.len() > 0
    &&& forall|i: int|
        0 <= i < parts.len() ==> #[trigger] items[i] == Tree::Bytes(parts[i]) && is_legal_name(
            parts[i],
        )
}

proof fn lemma_path_parts(items: Seq<Tree>)
    ensures
        path_parts(items) matches Ok(parts) ==> {
            &&& parts.len() == items.len()
            &&& forall|i: int|
                0 <= i < parts.len() ==> #[trigger] items[i] == Tree::Bytes(parts[i])
                    && is_legal_name(parts[i])
        },
        path_parts(items) is Err ==> exists|i: int|
            0 <= i < items.len() && match #[trigger] items[i] {
                Tree::Bytes(bytes) => !is_legal_name(bytes),
                _ => true,
            },
    decreases items.len(),
{
    if items.len() > 0 {
        let front = items.drop_last();
        let n = items.len() - 1;
        lemma_path_parts(front);
        match path_parts(front) {
            Err(_) => {
                let i = choose|i: int|
                    0 <= i < front.len() && match #[trigger] front[i] {
                        Tree::Bytes(bytes) => !is_legal_name(bytes),
                        _ => true,
                    };
                assert(items[i] == front[i]);
            },
            Ok(before) => {
                assert(items[n] == items.last());
                if let Tree::Bytes(bytes) = items[n] {
                    lemma_legal_name(bytes);
                    if path_parts(items) is Ok {
                        let parts = path_parts(items)->Ok_0;
                        assert forall|i: int| 0 <= i < parts.len() implies #[trigger] items[i]
                            == Tree::Bytes(parts[i]) && is_legal_name(parts[i]) by {
                            if i < n {
                                assert(front[i] == items[i]);
                                assert(parts[i] == before[i]);
                            }
                        }
                    }
                }
            },
        }
    }
}

/// The names that may stand in a path are the legal ones.
pub proof fn lemma_legal_name(bytes: Seq<u8>)
    ensures
        crate::metainfo::fields::is_segment(bytes) <==> is_legal_name(bytes),
{
    if is_legal_name(bytes) {
        if bytes.contains(47u8) {
            let i = choose|i: int| 0 <= i < bytes.len() && bytes[i] == 47u8;
            assert(bytes[i] != '/' as u8);
        }
        if bytes.contains(92u8) {
            let i = choose|i: int| 0 <= i < bytes.len() && bytes[i] == 92u8;
            assert(bytes[i] != '\\' as u8);
        }
        if bytes.contains(0u8) {
            let i = choose|i: int| 0 <= i < bytes.len() && bytes[i] == 0u8;
            assert(bytes[i] != 0);
        }
    } else if crate::metainfo::fields::is_segment(bytes) {
        let i = choose|i: int|
            0 <= i < bytes.len() && !(#[trigger] bytes[i] != '/' as u8 && bytes[i] != '\\' as u8
                && bytes[i] != 0);
        assert(bytes.contains(bytes[i]));
    }
}

/// A value is read as a path exactly where it is a list of legal names, and as those names.
pub proof fn lemma_path_value(value: Tree, parts: Seq<Seq<u8>>)
    ensures
        as_path(value) == Ok::<Seq<Seq<u8>>, Reason>(parts) <==> spells_path(value, parts),
{
    if let Tree::List(items) = value {
        lemma_path_parts(items);
        if spells_path(value, parts) {
            if path_parts(items) is Err {
                let i = choose|i: int|
                    0 <= i < items.len() && match #[trigger] items[i] {
                        Tree::Bytes(bytes) => !is_legal_name(bytes),
                        _ => true,
                    };
                assert(items[i] == Tree::Bytes(parts[i]));
            } else {
                let read = path_parts(items)->Ok_0;
                assert forall|i: int| 0 <= i < parts.len() implies read[i] == parts[i] by {
                    assert(items[i] == Tree::Bytes(parts[i]));
                    assert(items[i] == Tree::Bytes(read[i]));
                }
                assert(read =~= parts);
            }
        }
    }
}

/// The attributes that a dictionary names: none where the field is missing.
pub open spec fn named_attributes(pairs: Pairs) -> Seq<u8> {
    match lookup(pairs, encode_utf8("attr"@)) {
        Some(Tree::Bytes(letters)) => letters,
        _ => seq![],
    }
}

/// A listed file is what its dictionary says. Its flags and its kind are the letters of `attr`, its
/// length is the number of `length`, its digest that of `sha1`, and the target of a link that of
/// `symlink path`; a link has no content, and only a link may leave its length out.
pub proof fn lemma_file_fields(
    pairs: Pairs,
    raw_path: Seq<Seq<u8>>,
    shown: Option<Seq<Seq<u8>>>,
    budget: int,
    file: FileModel,
    left: int,
)
    requires
        describe_file(pairs, raw_path, shown, budget) == Ok::<(FileModel, int), Reason>(
            (file, left),
        ),
    ensures
        file.hidden <==> named_attributes(pairs).contains('h' as u8),
        file.executable <==> named_attributes(pairs).contains('x' as u8),
        file.kind is Padding <==> named_attributes(pairs).contains('p' as u8),
        file.kind is Symlink <==> named_attributes(pairs).contains('l' as u8),
        lookup(pairs, encode_utf8("attr"@)) matches Some(value) ==> value is Bytes,
        file.length >= 0,
        match lookup(pairs, encode_utf8("length"@)) {
            Some(value) => value == Tree::Integer(file.length),
            None => file.kind is Symlink && file.length == 0,
        },
        file.kind is Symlink ==> file.length == 0,
        match lookup(pairs, encode_utf8("sha1"@)) {
            Some(value) => value matches Tree::Bytes(digest) && digest.len() == 20 && file.sha1
                == Some(hex_text(digest)),
            None => file.sha1 is None,
        },
        file.kind is Symlink ==> {
            &&& file.raw_target is Some
            &&& lookup(pairs, encode_utf8("symlink path"@)) is Some
            &&& spells_path(
                lookup(pairs, encode_utf8("symlink path"@))->0,
                file.raw_target->0,
            )
            &&& file.symlink_path == Some(joined_text(file.raw_target->0))
        },
        !(file.kind is Symlink) ==> file.raw_target is None && file.symlink_path is None,
        file.raw_path == raw_path,
        shown matches Some(parts) ==> file.path == Some(joined_text(parts))
            && file.encoding_lossy == any_lossy(parts),
        shown is None ==> file.path is None && !file.encoding_lossy,
        0 <= left < budget,
{
    if file.kind is Symlink {
        lemma_path_value(
            lookup(pairs, encode_utf8("symlink path"@))->0,
            file.raw_target->0,
        );
    }
    crate::metainfo::files::lemma_costs(raw_path, file.raw_target, shown);
}

/// A dictionary with well-formed fields is described: nothing but a field of the wrong form, or a
/// budget that is used up, stands in the way.
pub proof fn lemma_file_accepted(
    pairs: Pairs,
    raw_path: Seq<Seq<u8>>,
    shown: Option<Seq<Seq<u8>>>,
    budget: int,
    length: int,
    target: Seq<Seq<u8>>,
)
    requires
        lookup(pairs, encode_utf8("attr"@)) matches Some(value) ==> value is Bytes,
        !(named_attributes(pairs).contains('p' as u8) && named_attributes(pairs).contains(
            'l' as u8,
        )),
        0 <= length,
        named_attributes(pairs).contains('l' as u8) ==> {
            &&& length == 0
            &&& lookup(pairs, encode_utf8("symlink path"@)) is Some
            &&& spells_path(lookup(pairs, encode_utf8("symlink path"@))->0, target)
        },
        match lookup(pairs, encode_utf8("length"@)) {
            Some(value) => value == Tree::Integer(length),
            None => named_attributes(pairs).contains('l' as u8),
        },
        lookup(pairs, encode_utf8("sha1"@)) matches Some(value) ==> (value matches Tree::Bytes(
            digest,
        ) && digest.len() == 20),
    ensures
        ({
            let links = named_attributes(pairs).contains('l' as u8);
            let cost = raw_cost(
                raw_path,
                if links {
                    Some(target)
                } else {
                    None
                },
            ) + shown_cost(shown);
            match describe_file(pairs, raw_path, shown, budget) {
                Ok((file, left)) => file.length == length && cost <= budget && left == budget - cost,
                Err(reason) => reason is SemanticCapacity && cost > budget,
            }
        }),
{
    if named_attributes(pairs).contains('l' as u8) {
        lemma_path_value(lookup(pairs, encode_utf8("symlink path"@))->0, target);
    }
}

/// An item of the flat list is shown below the name of the torrent by its `path.utf-8`, where that
/// is valid UTF-8 throughout, whatever `path` holds; only without such a field by its `path`. Files
/// are compared by `path`, and by `path.utf-8` only where there is no `path`. Only padding may do
/// without either.
pub proof fn lemma_item_paths(
    item: Tree,
    name: Seq<u8>,
    budget: int,
    file: FileModel,
    left: int,
)
    requires
        describe_item(item, name, budget) == Ok::<(FileModel, int), Reason>((file, left)),
    ensures
        item is Dict,
        ({
            let pairs = item->Dict_0;
            let plain = lookup(pairs, encode_utf8("path"@));
            let utf8 = lookup(pairs, encode_utf8("path.utf-8"@));
            &&& plain is Some ==> spells_path(plain->0, file.raw_path)
            &&& plain is None && utf8 is Some ==> spells_path(utf8->0, file.raw_path)
            &&& plain is None && utf8 is None ==> file.raw_path.len() == 0 && file.path is None
                && !file.encoding_lossy && file.kind is Padding
            &&& forall|parts: Seq<Seq<u8>>|
                utf8 is Some && #[trigger] spells_path(utf8->0, parts) && (forall|i: int|
                    0 <= i < parts.len() ==> valid_utf8(#[trigger] parts[i])) ==> {
                    &&& file.path == Some(joined_text(seq![name] + parts))
                    &&& file.encoding_lossy <==> !valid_utf8(name)
                }
            &&& plain is Some && (utf8 is None || exists|parts: Seq<Seq<u8>>, i: int|
                spells_path(utf8->0, parts) && 0 <= i < parts.len() && !#[trigger] valid_utf8(
                    parts[i],
                )) ==> file.path == Some(joined_text(seq![name] + file.raw_path))
            &&& exists|shown: Option<Seq<Seq<u8>>>|
                #[trigger] describe_file(pairs, file.raw_path, shown, budget) == Ok::<
                    (FileModel, int),
                    Reason,
                >((file, left))
        }),
{
    let pairs = item->Dict_0;
    let plain = lookup(pairs, encode_utf8("path"@));
    let utf8 = lookup(pairs, encode_utf8("path.utf-8"@));
    let raw = crate::metainfo::lists::item_path(pairs)->Ok_0;
    let utf8_parts = path_field(pairs, encode_utf8("path.utf-8"@))->Ok_0;
    let shown = crate::metainfo::lists::item_shown(utf8_parts, raw, name);
    let raw_path = match raw {
        Some(parts) => parts,
        None => seq![],
    };
    assert(describe_file(pairs, raw_path, shown, budget) == Ok::<(FileModel, int), Reason>(
        (file, left),
    ));
    lemma_file_fields(pairs, raw_path, shown, budget, file, left);
    if plain is Some {
        lemma_path_value(plain->0, file.raw_path);
    }
    if utf8 is Some {
        lemma_path_value(utf8->0, utf8_parts->0);
    }
    assert forall|parts: Seq<Seq<u8>>|
        utf8 is Some && #[trigger] spells_path(utf8->0, parts) && (forall|i: int|
            0 <= i < parts.len() ==> valid_utf8(#[trigger] parts[i])) implies {
        &&& file.path == Some(joined_text(seq![name] + parts))
        &&& file.encoding_lossy <==> !valid_utf8(name)
    } by {
        lemma_path_value(utf8->0, parts);
        let full = seq![name] + parts;
        assert(!any_lossy(parts));
        assert(full[0] == name);
        if any_lossy(full) {
            let k = choose|k: int| 0 <= k < full.len() && !valid_utf8(#[trigger] full[k]);
            if k > 0 {
                assert(full[k] == parts[k - 1]);
            }
        }
    }
    if utf8 is Some && (exists|parts: Seq<Seq<u8>>, i: int|
        spells_path(utf8->0, parts) && 0 <= i < parts.len() && !#[trigger] valid_utf8(parts[i])) {
        let (parts, i) = choose|parts: Seq<Seq<u8>>, i: int|
            spells_path(utf8->0, parts) && 0 <= i < parts.len() && !#[trigger] valid_utf8(parts[i]);
        lemma_path_value(utf8->0, parts);
        assert(any_lossy(parts));
    }
}

/// Whether an item of the flat list, read with some budget, is this file.
pub open spec fn is_item(item: Tree, name: Seq<u8>, file: FileModel) -> bool {
    exists|budget: int|
        (#[trigger] describe_item(item, name, budget) matches Ok((found, _)) && found == file)
}

/// The flat list gives one file for each of its items, in the order of the items.
pub proof fn lemma_items_in_order(items: Seq<Tree>, name: Seq<u8>, budget: int)
    ensures
        describe_items(items, name, budget) matches Ok((files, left)) ==> {
            &&& files.len() == items.len()
            &&& forall|i: int| 0 <= i < items.len() ==> is_item(items[i], name, #[trigger] files[i])
        },
    decreases items.len(),
{
    if items.len() > 0 {
        let front = items.drop_last();
        lemma_items_in_order(front, name, budget);
        if describe_items(items, name, budget) is Ok {
            let (files, left) = describe_items(items, name, budget)->Ok_0;
            let (before, rest) = describe_items(front, name, budget)->Ok_0;
            assert forall|i: int| 0 <= i < items.len() implies is_item(
                items[i],
                name,
                #[trigger] files[i],
            ) by {
                if i < front.len() {
                    assert(front[i] == items[i]);
                    assert(files[i] == before[i]);
                } else {
                    assert(describe_item(items[i], name, rest) == Ok::<(FileModel, int), Reason>(
                        (files[i], left),
                    ));
                }
            }
        } else {
        }
    }
}

/// Whether a value is the name that is shown: `name.utf-8` where it is valid UTF-8, else `name`.
pub open spec fn is_shown_name(pairs: Pairs, name: Seq<u8>) -> bool {
    match lookup(pairs, encode_utf8("name.utf-8"@)) {
        Some(Tree::Bytes(utf8)) if valid_utf8(utf8) => name == utf8,
        _ => match lookup(pairs, encode_utf8("name"@)) {
            Some(value) => value == Tree::Bytes(name),
            None => name.len() == 0,
        },
    }
}

/// A dictionary lists the items of `files`, below its name, or is itself the one file that its name
/// stands for; never both. Its name is a legal one.
pub proof fn lemma_flat_listing(
    pairs: Pairs,
    budget: int,
    name: Seq<u8>,
    shown: Seq<u8>,
    files: Seq<FileModel>,
    left: int,
)
    requires
        flat_listing(pairs, budget) == Ok::<(Seq<FileModel>, int), Reason>((files, left)),
        lookup(pairs, encode_utf8("name"@)) == Some(Tree::Bytes(name)),
        is_shown_name(pairs, shown),
    ensures
        is_legal_name(name),
        match lookup(pairs, encode_utf8("files"@)) {
            Some(value) => {
                &&& value matches Tree::List(items)
                &&& items.len() > 0
                &&& files.len() == items.len()
                &&& lookup(pairs, encode_utf8("length"@)) is None
                &&& forall|i: int|
                    0 <= i < items.len() ==> is_item(items[i], shown, #[trigger] files[i])
            },
            None => {
                &&& files.len() == 1
                &&& files[0].raw_path == seq![name]
                &&& files[0].path == Some(joined_text(seq![shown]))
                &&& files[0].encoding_lossy <==> !valid_utf8(shown)
                &&& describe_file(pairs, seq![name], Some(seq![shown]), budget) == Ok::<
                    (FileModel, int),
                    Reason,
                >((files[0], left))
            },
        },
{
    lemma_legal_name(name);
    match lookup(pairs, encode_utf8("files"@)) {
        Some(Tree::List(items)) => {
            lemma_items_in_order(items, shown, budget);
        },
        None => {
            lemma_file_fields(pairs, seq![name], Some(seq![shown]), budget, files[0], left);
            let parts = seq![shown];
            assert(parts[0] == shown);
        },
        _ => {},
    }
}

/// The format is told by two fields: without `meta version` it is the first one, with the number two
/// the second one, and with `pieces` beside it both. Any other number is not supported.
pub proof fn lemma_format(pairs: Pairs)
    ensures
        ({
            let version = lookup(pairs, encode_utf8("meta version"@));
            let flat = lookup(pairs, encode_utf8("pieces"@)) is Some;
            &&& format_of(pairs) == Ok::<Format, Reason>(Format::V1) <==> version is None
            &&& format_of(pairs) == Ok::<Format, Reason>(Format::V2) <==> version == Some(
                Tree::Integer(2),
            ) && !flat
            &&& format_of(pairs) == Ok::<Format, Reason>(Format::Hybrid) <==> version == Some(
                Tree::Integer(2),
            ) && flat
            &&& format_of(pairs) == Err::<Format, Reason>(Reason::UnsupportedMetaVersion) <==> (
            version matches Some(Tree::Integer(n)) && n != 2)
            &&& format_of(pairs) == Err::<Format, Reason>(Reason::IntegerType) <==> version is Some
                && !(version->0 is Integer)
        }),
{
}

/// The sizes of the files that are not padding.
proof fn lemma_regular_sizes(files: Seq<FileModel>)
    ensures
        content_size(files) == full_size(regular_files(files)),
        content_count(files) == regular_files(files).len(),
        padding_size(files) == full_size(files) - full_size(regular_files(files)),
        content_paths(files).len() == regular_files(files).len(),
        forall|i: int|
            0 <= i < content_paths(files).len() ==> #[trigger] content_paths(files)[i]
                == regular_files(files)[i].raw_path,
    decreases files.len(),
{
    if files.len() > 0 {
        let front = files.drop_last();
        lemma_regular_sizes(front);
        if !(files.last().kind is Padding) {
            assert(regular_files(files).drop_last() =~= regular_files(front));
            assert forall|i: int| 0 <= i < content_paths(files).len() implies #[trigger] content_paths(
                files,
            )[i] == regular_files(files)[i].raw_path by {
                if i < content_paths(front).len() {
                    assert(content_paths(files)[i] == content_paths(front)[i]);
                    assert(regular_files(files)[i] == regular_files(front)[i]);
                }
            }
        }
    }
}

/// The length of files is that of each of them, one after the other.
pub proof fn lemma_full_size(files: Seq<FileModel>, file: FileModel)
    ensures
        full_size(Seq::<FileModel>::empty()) == 0,
        full_size(files.push(file)) == full_size(files) + file.length,
{
    assert(files.push(file).drop_last() =~= files);
}

/// Where no piece is shared, each file takes the least number of pieces that hold it, and one with
/// content starts at the first piece boundary behind what was there before.
pub proof fn lemma_own_pieces(files: Seq<FileModel>, file: FileModel, piece: int)
    requires
        0 < piece,
        0 <= file.length,
        0 <= aligned_space(files, piece),
    ensures
        aligned_pieces(Seq::<FileModel>::empty(), piece) == 0,
        aligned_space(Seq::<FileModel>::empty(), piece) == 0,
        ({
            let taken = aligned_pieces(files.push(file), piece) - aligned_pieces(files, piece);
            piece * (taken - 1) < file.length <= piece * taken
        }),
        file.length == 0 ==> aligned_space(files.push(file), piece) == aligned_space(files, piece),
        file.length > 0 ==> crate::metainfo::hybrid::starts_next_piece(
            aligned_space(files, piece),
            aligned_space(files.push(file), piece) - file.length,
            piece,
        ),
{
    assert(files.push(file).drop_last() =~= files);
    lemma_boundary(file.length, piece);
    lemma_boundary(aligned_space(files, piece), piece);
    let taken = pieces_for(file.length, piece);
    assert(piece * (taken - 1) == piece * taken - piece) by (nonlinear_arith);
}

/// Whether path `a` is path `b` or leads to it.
pub open spec fn leads_to(a: Seq<Seq<u8>>, b: Seq<Seq<u8>>) -> bool {
    a.len() <= b.len() && forall|k: int| 0 <= k < a.len() ==> #[trigger] a[k] == b[k]
}

proof fn lemma_leads_to(a: Seq<Seq<u8>>, b: Seq<Seq<u8>>)
    ensures
        crate::order::path_within(a, b) <==> leads_to(a, b),
{
    if leads_to(a, b) {
        assert(b.take(a.len() as int) =~= a);
    } else if crate::order::path_within(a, b) {
        assert forall|k: int| 0 <= k < a.len() implies #[trigger] a[k] == b[k] by {
            assert(b.take(a.len() as int)[k] == b[k]);
        }
    }
}

/// A valid description is that of its dictionary: the piece length, the private flag and the name are
/// its fields; the length, the number of files and the padding are those of its files; no file is, or
/// stands in the way of, another, and every link leads to a file or to a directory above one.
pub proof fn lemma_info_fields(
    pairs: Pairs,
    format: Format,
    budget: int,
    model: InfoModel,
    name: Seq<u8>,
)
    requires
        describe_info(pairs, format, budget) == Ok::<InfoModel, Reason>(model),
        is_shown_name(pairs, name),
    ensures
        model.format == format,
        lookup(pairs, encode_utf8("piece length"@)) == Some(Tree::Integer(model.piece_length)),
        model.piece_length > 0,
        match lookup(pairs, encode_utf8("private"@)) {
            Some(value) => value == Tree::Integer(
                if model.private == Some(true) {
                    1
                } else {
                    0
                },
            ) && model.private is Some,
            None => model.private is None,
        },
        model.name == display_text(name),
        model.encoding_lossy <==> (!valid_utf8(name) || exists|i: int|
            0 <= i < model.files.len() && (#[trigger] model.files[i]).encoding_lossy),
        model.total_length == full_size(regular_files(model.files)),
        model.file_count == regular_files(model.files).len(),
        model.padding_length == full_size(model.files) - model.total_length,
        !(format is V2) ==> lookup(pairs, encode_utf8("pieces"@)) is Some && (lookup(
            pairs,
            encode_utf8("pieces"@),
        )->0 matches Tree::Bytes(hashes) && hashes.len() == 20 * model.piece_count)
            && model.piece_space_length == full_size(model.files),
        format is V2 ==> model.piece_count == aligned_pieces(model.files, model.piece_length)
            && model.piece_space_length == aligned_space(model.files, model.piece_length),
        forall|i: int, j: int|
            0 <= i < model.file_count && 0 <= j < model.file_count && i != j ==> !#[trigger] leads_to(
                regular_files(model.files)[i].raw_path,
                regular_files(model.files)[j].raw_path,
            ),
        forall|i: int|
            0 <= i < model.files.len() && (#[trigger] model.files[i]).raw_target is Some ==> exists|
                j: int,
            |
                0 <= j < model.file_count && #[trigger] leads_to(
                    model.files[i].raw_target->0,
                    regular_files(model.files)[j].raw_path,
                ),
{
    let files = model.files;
    let paths = content_paths(files);
    assert(crate::metainfo::analysis::raw_name(pairs)->Ok_0 =~= name);
    lemma_regular_sizes(files);
    assert forall|i: int, j: int|
        0 <= i < model.file_count && 0 <= j < model.file_count && i != j implies !#[trigger] leads_to(
        regular_files(files)[i].raw_path,
        regular_files(files)[j].raw_path,
    ) by {
        assert(paths[i] == regular_files(files)[i].raw_path);
        assert(paths[j] == regular_files(files)[j].raw_path);
        lemma_leads_to(paths[i], paths[j]);
        if leads_to(paths[i], paths[j]) {
            assert(crate::order::path_within(paths[i], paths[j]));
            assert(in_conflict(paths));
        }
    }
    assert forall|i: int|
        0 <= i < files.len() && (#[trigger] files[i]).raw_target is Some implies exists|j: int|
        0 <= j < model.file_count && #[trigger] leads_to(
            files[i].raw_target->0,
            regular_files(files)[j].raw_path,
        ) by {
        let target = files[i].raw_target->0;
        assert(crate::metainfo::paths::leads_somewhere(target, paths));
        let j = choose|j: int|
            0 <= j < paths.len() && crate::order::path_within(target, #[trigger] paths[j]);
        assert(paths[j] == regular_files(files)[j].raw_path);
        lemma_leads_to(target, paths[j]);
    }
}

/// A dictionary with well-formed fields, whose files fit their pieces and neither stand in each
/// other's way nor link to nothing, is valid.
pub proof fn lemma_info_accepted(
    pairs: Pairs,
    format: Format,
    budget: int,
    piece: int,
    files: Seq<FileModel>,
)
    requires
        lookup(pairs, encode_utf8("name"@)) matches Some(value) ==> value is Bytes,
        lookup(pairs, encode_utf8("name.utf-8"@)) matches Some(value) ==> value is Bytes,
        lookup(pairs, encode_utf8("piece length"@)) == Some(Tree::Integer(piece)),
        piece > 0,
        format is V2 || format is Hybrid ==> piece >= 16384
            && vstd::arithmetic::power2::is_pow2(piece),
        lookup(pairs, encode_utf8("private"@)) matches Some(value) ==> value == Tree::Integer(0)
            || value == Tree::Integer(1),
        crate::metainfo::analysis::listed_files(pairs, format, piece, budget) == Ok::<
            Seq<FileModel>,
            Reason,
        >(files),
        crate::metainfo::layout::sizes_valid(files),
        full_size(files) <= u64::MAX,
        format is V2 ==> aligned_space(files, piece) <= u64::MAX,
        format is V2 ==> aligned_pieces(files, piece) <= usize::MAX,
        !(format is V2) ==> lookup(pairs, encode_utf8("pieces"@)) is Some && (lookup(
            pairs,
            encode_utf8("pieces"@),
        )->0 matches Tree::Bytes(hashes) && hashes.len() % 20 == 0 && hashes.len() <= usize::MAX
            && piece * (hashes.len() / 20 - 1) < full_size(files) <= piece * (hashes.len() / 20)),
        forall|i: int, j: int|
            0 <= i < regular_files(files).len() && 0 <= j < regular_files(files).len() && i != j
                ==> !#[trigger] leads_to(
                regular_files(files)[i].raw_path,
                regular_files(files)[j].raw_path,
            ),
        forall|i: int|
            0 <= i < files.len() && (#[trigger] files[i]).raw_target is Some ==> exists|j: int|
                0 <= j < regular_files(files).len() && #[trigger] leads_to(
                    files[i].raw_target->0,
                    regular_files(files)[j].raw_path,
                ),
    ensures
        describe_info(pairs, format, budget) is Ok,
{
    let paths = content_paths(files);
    lemma_regular_sizes(files);
    if !(format is V2) {
        let hashes = lookup(pairs, encode_utf8("pieces"@))->0->Bytes_0;
        crate::metainfo::layout::lemma_sums_bounded(files, piece, false);
        lemma_piece_count(full_size(files), piece, hashes.len() as int / 20);
    }
    if in_conflict(paths) {
        let (i, j) = choose|i: int, j: int|
            0 <= i < paths.len() && 0 <= j < paths.len() && i != j
                && #[trigger] crate::order::path_within(paths[i], paths[j]);
        lemma_leads_to(paths[i], paths[j]);
        assert(paths[i] == regular_files(files)[i].raw_path);
        assert(paths[j] == regular_files(files)[j].raw_path);
    }
    if has_dangling_link(files) {
        let i = choose|i: int|
            0 <= i < files.len() && (#[trigger] files[i]).raw_target is Some
                && !crate::metainfo::paths::leads_somewhere(files[i].raw_target->0, paths);
        let j = choose|j: int|
            0 <= j < regular_files(files).len() && #[trigger] leads_to(
                files[i].raw_target->0,
                regular_files(files)[j].raw_path,
            );
        assert(paths[j] == regular_files(files)[j].raw_path);
        lemma_leads_to(files[i].raw_target->0, paths[j]);
    }
}

/// The number of pieces is the least that holds the size.
pub proof fn lemma_piece_count(size: int, piece: int, count: int)
    requires
        0 < piece,
        0 <= size,
    ensures
        pieces_for(size, piece) == count <==> piece * (count - 1) < size <= piece * count,
{
    lemma_boundary(size, piece);
    let n = pieces_for(size, piece);
    assert(piece * (n - 1) == piece * n - piece) by (nonlinear_arith);
    if piece * (count - 1) < size <= piece * count {
        assert(n == count) by (nonlinear_arith)
            requires
                0 < piece,
                piece * (count - 1) < size <= piece * count,
                piece * (n - 1) < size <= piece * n,
        ;
    }
}

/// The dictionary that a path leads to from a directory of the file tree.
pub open spec fn below(pairs: Pairs, path: Seq<Seq<u8>>) -> Option<Pairs>
    decreases path.len(),
{
    if path.len() == 0 {
        Some(pairs)
    } else {
        match below(pairs, path.drop_last()) {
            Some(directory) => match lookup(directory, path.last()) {
                Some(Tree::Dict(found)) => Some(found),
                _ => None,
            },
            None => None,
        }
    }
}

/// A path from a directory is a path from one of its children.
proof fn lemma_below_child(pairs: Pairs, key: Seq<u8>, child: Pairs, path: Seq<Seq<u8>>)
    requires
        lookup(pairs, key) == Some(Tree::Dict(child)),
    ensures
        below(pairs, seq![key] + path) == below(child, path),
    decreases path.len(),
{
    let whole = seq![key] + path;
    if path.len() == 0 {
        assert(whole.drop_last() =~= seq![]);
        assert(whole.last() == key);
        assert(below(pairs, seq![]) == Some(pairs));
    } else {
        assert(whole.drop_last() =~= seq![key] + path.drop_last());
        assert(whole.last() == path.last());
        lemma_below_child(pairs, key, child, path.drop_last());
    }
}

/// Whether a file stands in the tree at its own path below `above`: the dictionary there holds an
/// empty key and nothing else, and under it the description of the file. A file of a tree is no
/// padding, and has a root hash of thirty-two bytes, which only an empty one may leave out.
pub open spec fn stands_in_tree(pairs: Pairs, above: Seq<Seq<u8>>, file: FileModel) -> bool {
    exists|path: Seq<Seq<u8>>| #[trigger] stands_at(pairs, above, path, file)
}

/// Whether a file stands in the tree at a path.
pub open spec fn stands_at(
    pairs: Pairs,
    above: Seq<Seq<u8>>,
    path: Seq<Seq<u8>>,
    file: FileModel,
) -> bool {
    &&& file.raw_path == above + path
    &&& above.len() + path.len() > 0
    &&& file.path == Some(joined_text(file.raw_path))
    &&& !(file.kind is Padding)
    &&& below(pairs, path) matches Some(leaf)
    &&& leaf.len() == 1
    &&& lookup(leaf, seq![]) matches Some(Tree::Dict(fields))
    &&& is_leaf(fields, file)
}

/// Whether fields of a leaf are those of a file.
pub open spec fn is_leaf(fields: Pairs, file: FileModel) -> bool {
    &&& match lookup(fields, encode_utf8("pieces root"@)) {
        Some(value) => value matches Tree::Bytes(root) && root.len() == 32,
        None => file.length == 0,
    }
    &&& exists|budget: int|
        (#[trigger] describe_file(fields, file.raw_path, Some(file.raw_path), budget) matches Ok(
            (found, _),
        ) && found == file)
}

/// No two keys of a dictionary are the same.
pub open spec fn keys_differ(pairs: Pairs) -> bool {
    forall|i: int, j: int|
        0 <= i < j < pairs.len() ==> (#[trigger] pairs[i]).0 != (#[trigger] pairs[j]).0
}

proof fn lemma_lookup_at(pairs: Pairs, at: int)
    requires
        keys_differ(pairs),
        0 <= at < pairs.len(),
    ensures
        lookup(pairs, pairs[at].0) == Some(pairs[at].1),
{
    let key = pairs[at].0;
    lemma_lookup(pairs, key);
    assert(lookup(pairs, key) is Some);
    let value = lookup(pairs, key)->0;
    let i = choose|i: int|
        {
            &&& 0 <= i < pairs.len()
            &&& #[trigger] pairs[i] == (key, value)
            &&& forall|j: int| 0 <= j < i ==> (#[trigger] pairs[j]).0 != key
        };
    if i < at {
        assert(pairs[i].0 != pairs[at].0);
    } else if at < i {
        assert(pairs[at].0 != key);
    }
}

/// Every file that a tree lists stands in it, at its own path.
pub proof fn lemma_tree_files(pairs: Pairs, above: Seq<Seq<u8>>, budget: int)
    requires
        crate::metainfo::laws::in_order(Tree::Dict(pairs)),
    ensures
        crate::metainfo::trees::tree_listing(pairs, above, budget) matches Ok((files, _))
            ==> forall|i: int|
            0 <= i < files.len() ==> #[trigger] stands_in_tree(pairs, above, files[i]),
    decreases pairs, 1int,
{
    lemma_empty_key();
    match lookup(pairs, encode_utf8(""@)) {
        Some(leaf) => {
            if crate::metainfo::trees::tree_listing(pairs, above, budget) is Ok {
                let (files, left) = crate::metainfo::trees::tree_listing(pairs, above, budget)->Ok_0;
                let fields = leaf->Dict_0;
                let file = files[0];
                lemma_file_fields(fields, above, Some(above), budget, file, left);
                assert(above + Seq::<Seq<u8>>::empty() =~= above);
                assert(below(pairs, seq![]) == Some(pairs));
                assert(describe_file(fields, file.raw_path, Some(file.raw_path), budget) == Ok::<
                    (FileModel, int),
                    Reason,
                >((file, left)));
                assert(is_leaf(fields, file));
                assert(stands_at(pairs, above, seq![], file));
                assert(files =~= seq![file]);
            }
        },
        None => {
            assert(pairs.take(pairs.len() as int) =~= pairs);
            lemma_children_files(pairs, pairs, above, budget);
        },
    }
}

/// The key of a leaf is empty.
proof fn lemma_empty_key()
    ensures
        encode_utf8(""@) == Seq::<u8>::empty(),
{
    reveal_strlit("");
    assert(""@ =~= Seq::<char>::empty());
    assert(encode_utf8(Seq::<char>::empty()) =~= Seq::<u8>::empty());
}

/// The files below the first children of a directory stand in it.
proof fn lemma_children_files(
    pairs: Pairs,
    first: Pairs,
    above: Seq<Seq<u8>>,
    budget: int,
)
    requires
        crate::metainfo::laws::in_order(Tree::Dict(pairs)),
        first.len() <= pairs.len(),
        first == pairs.take(first.len() as int),
    ensures
        crate::metainfo::trees::children_listing(first, above, budget) matches Ok((files, _))
            ==> forall|i: int|
            0 <= i < files.len() ==> #[trigger] stands_in_tree(pairs, above, files[i]),
    decreases first, 0int,
{
    if first.len() > 0 {
        let n = first.len() - 1;
        let front = first.drop_last();
        assert(front =~= pairs.take(n));
        lemma_children_files(pairs, front, above, budget);
        if crate::metainfo::trees::children_listing(first, above, budget) is Ok {
            let (files, _) = crate::metainfo::trees::children_listing(first, above, budget)->Ok_0;
            let (before, left) = crate::metainfo::trees::children_listing(
                front,
                above,
                budget,
            )->Ok_0;
            let pair = first[n];
            assert(pair == pairs[n]);
            let child = pair.1->Dict_0;
            let inner = above.push(pair.0);
            assert(crate::metainfo::laws::in_order(pairs[n].1));
            assert(decreases_to!(first => pair.1));
            lemma_tree_files(child, inner, left);
            let (more, _) = crate::metainfo::trees::tree_listing(child, inner, left)->Ok_0;
            lemma_ascending_differ(pairs);
            lemma_lookup_at(pairs, n);
            assert forall|i: int| 0 <= i < files.len() implies #[trigger] stands_in_tree(
                pairs,
                above,
                files[i],
            ) by {
                if i < before.len() {
                    assert(files[i] == before[i]);
                } else {
                    let file = more[i - before.len()];
                    assert(files[i] == file);
                    assert(stands_in_tree(child, inner, file));
                    let path = choose|path: Seq<Seq<u8>>| #[trigger]
                        stands_at(child, inner, path, file);
                    let longer = seq![pair.0] + path;
                    lemma_below_child(pairs, pair.0, child, path);
                    assert(above + longer =~= inner + path);
                    assert(stands_at(pairs, above, longer, file));
                }
            }
        }
    }
}

proof fn lemma_ascending_differ(pairs: Pairs)
    requires
        crate::metainfo::laws::keys_ascend(pairs),
    ensures
        keys_differ(pairs),
{
    assert forall|i: int, j: int| 0 <= i < j < pairs.len() implies (#[trigger] pairs[i]).0 != (
    #[trigger] pairs[j]).0 by {
        assert(crate::order::bytes_before(pairs[i].0, pairs[j].0));
        crate::order::lemma_bytes_irreflexive(pairs[i].0);
    }
}

/// A path from a directory starts with one of its children.
proof fn lemma_below_first(pairs: Pairs, path: Seq<Seq<u8>>)
    requires
        path.len() > 0,
        below(pairs, path) is Some,
    ensures
        lookup(pairs, path[0]) matches Some(Tree::Dict(child)) && below(child, path.drop_first())
            == below(pairs, path),
    decreases path.len(),
{
    let front = path.drop_last();
    if path.len() == 1 {
        assert(front =~= seq![]);
        assert(below(pairs, seq![]) == Some(pairs));
        assert(path.last() == path[0]);
        assert(path.drop_first() =~= seq![]);
    } else {
        lemma_below_first(pairs, front);
        assert(front[0] == path[0]);
        let rest = path.drop_first();
        assert(rest.drop_last() =~= front.drop_first());
        assert(rest.last() == path.last());
    }
}

/// Every leaf of a tree that can be listed is listed, under its own path.
pub proof fn lemma_tree_complete(
    pairs: Pairs,
    above: Seq<Seq<u8>>,
    budget: int,
    path: Seq<Seq<u8>>,
)
    requires
        crate::metainfo::laws::in_order(Tree::Dict(pairs)),
        forall|k: int| 0 <= k < path.len() ==> (#[trigger] path[k]).len() > 0,
        below(pairs, path) matches Some(leaf) && lookup(leaf, seq![]) is Some,
    ensures
        crate::metainfo::trees::tree_listing(pairs, above, budget) matches Ok((files, _))
            ==> exists|i: int|
            0 <= i < files.len() && (#[trigger] files[i]).raw_path == above + path,
    decreases path.len(), pairs.len() + 1,
{
    lemma_empty_key();
    if crate::metainfo::trees::tree_listing(pairs, above, budget) is Ok {
        let (files, left) = crate::metainfo::trees::tree_listing(pairs, above, budget)->Ok_0;
        match lookup(pairs, encode_utf8(""@)) {
            Some(leaf) => {
                if path.len() == 0 {
                    lemma_file_fields(leaf->Dict_0, above, Some(above), budget, files[0], left);
                    assert(above + path =~= above);
                    assert(files[0].raw_path == above + path);
                } else {
                    lemma_below_first(pairs, path);
                    lemma_lookup(pairs, path[0]);
                    lemma_lookup(pairs, encode_utf8(""@));
                    assert(path[0].len() > 0);
                }
            },
            None => {
                if path.len() == 0 {
                    assert(below(pairs, path) == Some(pairs));
                    assert(encode_utf8(""@) =~= seq![]);
                }
                lemma_below_first(pairs, path);
                lemma_lookup(pairs, path[0]);
                let at = choose|i: int|
                    {
                        &&& 0 <= i < pairs.len()
                        &&& #[trigger] pairs[i] == (path[0], lookup(pairs, path[0])->0)
                        &&& forall|j: int| 0 <= j < i ==> (#[trigger] pairs[j]).0 != path[0]
                    };
                assert(pairs.take(pairs.len() as int) =~= pairs);
                lemma_children_complete(pairs, pairs.len() as int, at, above, budget, path);
            },
        }
    }
}

proof fn lemma_children_complete(
    pairs: Pairs,
    n: int,
    at: int,
    above: Seq<Seq<u8>>,
    budget: int,
    path: Seq<Seq<u8>>,
)
    requires
        crate::metainfo::laws::in_order(Tree::Dict(pairs)),
        forall|k: int| 0 <= k < path.len() ==> (#[trigger] path[k]).len() > 0,
        path.len() > 0,
        0 <= at < n <= pairs.len(),
        pairs[at].0 == path[0],
        pairs[at].1 matches Tree::Dict(child) && (below(child, path.drop_first()) matches Some(leaf)
            && lookup(leaf, seq![]) is Some),
    ensures
        crate::metainfo::trees::children_listing(pairs.take(n), above, budget) matches Ok(
            (files, _),
        ) ==> exists|i: int|
            0 <= i < files.len() && (#[trigger] files[i]).raw_path == above + path,
    decreases path.len(), n,
{
    let first = pairs.take(n);
    if crate::metainfo::trees::children_listing(first, above, budget) is Ok {
        let front = first.drop_last();
        assert(front =~= pairs.take(n - 1));
        let (files, _) = crate::metainfo::trees::children_listing(first, above, budget)->Ok_0;
        let (before, left) = crate::metainfo::trees::children_listing(front, above, budget)->Ok_0;
        let pair = first[n - 1];
        assert(pair == pairs[n - 1]);
        if at < n - 1 {
            lemma_children_complete(pairs, n - 1, at, above, budget, path);
            let i = choose|i: int|
                0 <= i < before.len() && (#[trigger] before[i]).raw_path == above + path;
            assert(files[i] == before[i]);
        } else {
            let child = pair.1->Dict_0;
            let rest = path.drop_first();
            let inner = above.push(pair.0);
            assert(crate::metainfo::laws::in_order(pairs[at].1));
            assert forall|k: int| 0 <= k < rest.len() implies (#[trigger] rest[k]).len() > 0 by {
                assert(rest[k] == path[k + 1]);
            }
            lemma_tree_complete(child, inner, left, rest);
            let (more, _) = crate::metainfo::trees::tree_listing(child, inner, left)->Ok_0;
            let i = choose|i: int|
                0 <= i < more.len() && (#[trigger] more[i]).raw_path == inner + rest;
            assert(inner + rest =~= above + path);
            assert(files[before.len() + i] == more[i]);
        }
    }
}

} // verus!
