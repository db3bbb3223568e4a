//! Torrents that carry both layouts, which must describe the same files.

use crate::metainfo::files::{file_models, FileKind, FileModel, TorrentFile};
use crate::metainfo::layout::{
    boundary, content_count, full_size, lemma_boundary, lemma_sizes_prefix, next_boundary, sizes_valid,
};
use crate::metainfo::paths::{same_path, same_target};
use crate::reason::Reason;
use vstd::prelude::*;

verus! {

/// How far a walk along the flat list has come: the bytes passed, the end of the last content and
/// the number of files of the tree that were met.
pub struct Walk {
    pub offset: int,
    pub end: int,
    pub matched: int,
}

/// Whether two descriptions mean the same file.
pub open spec fn same_file(a: FileModel, b: FileModel) -> bool {
    &&& a.raw_path == b.raw_path
    &&& a.length == b.length
    &&& a.kind == b.kind
    &&& a.raw_target == b.raw_target
}

/// One step of the walk. A file with content must start at the first piece boundary behind the
/// content before it, and every file but padding must be the next one of the tree.
pub open spec fn walk_step(walk: Walk, file: FileModel, tree: Seq<FileModel>, piece: int) -> Result<
    Walk,
    Reason,
> {
    let content = !(file.kind is Padding);
    let start = boundary(walk.end, piece);
    if content && file.length > 0 && start > u64::MAX {
        Err(Reason::LengthOverflow)
    } else if content && file.length > 0 && walk.offset != start {
        Err(Reason::HybridLayout)
    } else if content && file.length > 0 && start + file.length > u64::MAX {
        Err(Reason::LengthOverflow)
    } else if content && !same_file(file, tree[walk.matched]) {
        Err(Reason::HybridLayout)
    } else if walk.offset + file.length > u64::MAX {
        Err(Reason::LengthOverflow)
    } else {
        Ok(
            Walk {
                offset: walk.offset + file.length,
                end: if content && file.length > 0 {
                    start + file.length
                } else {
                    walk.end
                },
                matched: walk.matched + if content {
                    1int
                } else {
                    0
                },
            },
        )
    }
}

/// The walk along the whole flat list.
pub open spec fn walk_along(flat: Seq<FileModel>, tree: Seq<FileModel>, piece: int) -> Result<
    Walk,
    Reason,
>
    decreases flat.len(),
{
    if flat.len() == 0 {
        Ok(Walk { offset: 0, end: 0, matched: 0 })
    } else {
        match walk_along(flat.drop_last(), tree, piece) {
            Err(reason) => Err(reason),
            Ok(walk) => walk_step(walk, flat.last(), tree, piece),
        }
    }
}

/// Whether the flat list describes the files of the tree. Padding may follow the last content up
/// to the end of its piece, and no further.
pub open spec fn layouts_agree(flat: Seq<FileModel>, tree: Seq<FileModel>, piece: int) -> Result<
    (),
    Reason,
> {
    if content_count(flat) != tree.len() {
        Err(Reason::HybridLayout)
    } else {
        match walk_along(flat, tree, piece) {
            Err(reason) => Err(reason),
            Ok(walk) => if boundary(walk.end, piece) > u64::MAX {
                Err(Reason::LengthOverflow)
            } else if walk.offset > boundary(walk.end, piece) {
                Err(Reason::HybridLayout)
            } else {
                Ok(())
            },
        }
    }
}

/// A walk that fails early fails as a whole, for the same reason.
proof fn lemma_walk_failure(flat: Seq<FileModel>, tree: Seq<FileModel>, piece: int, n: int)
    requires
        0 <= n <= flat.len(),
        walk_along(flat.take(n), tree, piece) is Err,
    ensures
        walk_along(flat, tree, piece) == walk_along(flat.take(n), tree, piece),
    decreases flat.len(),
{
    if n == flat.len() {
        assert(flat.take(n) =~= flat);
    } else {
        assert(flat.drop_last().take(n) =~= flat.take(n));
        lemma_walk_failure(flat.drop_last(), tree, piece, n);
    }
}

/// A file that is not padding is counted.
proof fn lemma_count_grows(files: Seq<FileModel>, n: int)
    requires
        0 <= n <= files.len(),
    ensures
        0 <= content_count(files.take(n)) <= content_count(files),
        n < files.len() && !(files[n].kind is Padding) ==> content_count(files.take(n))
            < content_count(files),
    decreases files.len(),
{
    if n == files.len() {
        assert(files.take(n) =~= files);
        if n > 0 {
            assert(files.take(n).drop_last() =~= files.drop_last().take(n - 1));
            lemma_count_grows(files.drop_last(), n - 1);
        }
    } else {
        assert(files.drop_last().take(n) =~= files.take(n));
        lemma_count_grows(files.drop_last(), n);
    }
}

/// The number of files that are not padding.
pub fn count_content(files: &Vec<TorrentFile>) -> (count: usize)
    ensures
        count == content_count(file_models(files@)),
{
    let ghost models = file_models(files@);
    let mut count: usize = 0;
    for i in 0..files.len()
        invariant
            models == file_models(files@),
            count == content_count(models.take(i as int)),
            count <= i,
    {
        proof {
            assert(models.take(i + 1).drop_last() =~= models.take(i as int));
            assert(models.take(i + 1).last() == files@[i as int]@);
        }
        if files[i].kind != FileKind::Padding {
            count += 1;
        }
    }
    assert(models.take(models.len() as int) =~= models);
    count
}

/// Whether two files are the same but for the way in which they are shown.
fn files_match(a: &TorrentFile, b: &TorrentFile) -> (same: bool)
    ensures
        same == same_file(a@, b@),
{
    a.length == b.length && a.kind == b.kind && same_path(&a.raw_path, &b.raw_path) && same_target(
        &a.raw_target,
        &b.raw_target,
    )
}

/// Checks that the flat list describes the files of the tree.
pub fn check_hybrid(flat: &Vec<TorrentFile>, tree: &Vec<TorrentFile>, piece_length: u64) -> (result:
    Result<(), Reason>)
    requires
        0 < piece_length,
    ensures
        result == layouts_agree(file_models(flat@), file_models(tree@), piece_length as int),
{
    let ghost models = file_models(flat@);
    let ghost targets = file_models(tree@);
    let ghost piece = piece_length as int;
    if count_content(flat) != tree.len() {
        return Err(Reason::HybridLayout);
    }
    let mut offset: u64 = 0;
    let mut end: u64 = 0;
    let mut matched: usize = 0;
    for i in 0..flat.len()
        invariant
            models == file_models(flat@),
            targets == file_models(tree@),
            piece == piece_length,
            0 < piece,
            content_count(models) == targets.len(),
            matched == content_count(models.take(i as int)),
            walk_along(models.take(i as int), targets, piece) == Ok::<Walk, Reason>(
                Walk { offset: offset as int, end: end as int, matched: matched as int },
            ),
    {
        proof {
            assert(models.take(i + 1).drop_last() =~= models.take(i as int));
            assert(models.take(i + 1).last() == flat@[i as int]@);
            assert(models[i as int] == flat@[i as int]@);
            lemma_count_grows(models, i as int);
            if walk_along(models.take(i + 1), targets, piece) is Err {
                lemma_walk_failure(models, targets, piece, i + 1);
            }
        }
        let file = &flat[i];
        if file.kind != FileKind::Padding {
            if file.length > 0 {
                match next_boundary(end, piece_length) {
                    None => {
                        return Err(Reason::LengthOverflow);
                    },
                    Some(start) => {
                        if offset != start {
                            return Err(Reason::HybridLayout);
                        }
                        match start.checked_add(file.length) {
                            None => {
                                return Err(Reason::LengthOverflow);
                            },
                            Some(behind) => {
                                end = behind;
                            },
                        }
                    },
                }
            }
            assert(targets.len() == tree.len());
            assert(matched < tree.len());
            assert(targets[matched as int] == tree@[matched as int]@);
            if !files_match(file, &tree[matched]) {
                return Err(Reason::HybridLayout);
            }
            matched += 1;
        }
        match offset.checked_add(file.length) {
            None => {
                return Err(Reason::LengthOverflow);
            },
            Some(behind) => {
                offset = behind;
            },
        }
    }
    assert(models.take(models.len() as int) =~= models);
    match next_boundary(end, piece_length) {
        None => Err(Reason::LengthOverflow),
        Some(limit) => if offset > limit {
            Err(Reason::HybridLayout)
        } else {
            Ok(())
        },
    }
}

/// Whether the file at `i` is the file of the tree that is next in order, and starts a piece where
/// it has content.
pub open spec fn well_placed(flat: Seq<FileModel>, tree: Seq<FileModel>, piece: int, i: int) -> bool {
    &&& same_file(flat[i], tree[content_count(flat.take(i))])
    &&& flat[i].length > 0 ==> full_size(flat.take(i)) % piece == 0
}

/// Where the two layouts agree, the files of the tree are those of the flat list that are not
/// padding, in the same order, and each of them that has content starts a piece.
pub proof fn lemma_layouts_agree(flat: Seq<FileModel>, tree: Seq<FileModel>, piece: int)
    requires
        0 < piece,
        sizes_valid(flat),
        layouts_agree(flat, tree, piece) is Ok,
    ensures
        content_count(flat) == tree.len(),
        forall|i: int|
            0 <= i < flat.len() && !(flat[i].kind is Padding) ==> #[trigger] well_placed(
                flat,
                tree,
                piece,
                i,
            ),
{
    lemma_walk(flat, tree, piece);
}

/// What a walk that succeeds has met.
proof fn lemma_walk(flat: Seq<FileModel>, tree: Seq<FileModel>, piece: int)
    requires
        0 < piece,
        sizes_valid(flat),
        walk_along(flat, tree, piece) is Ok,
    ensures
        walk_along(flat, tree, piece)->Ok_0.offset == full_size(flat),
        0 <= walk_along(flat, tree, piece)->Ok_0.end,
        walk_along(flat, tree, piece)->Ok_0.matched == content_count(flat),
        forall|i: int|
            0 <= i < flat.len() && !(flat[i].kind is Padding) ==> #[trigger] well_placed(
                flat,
                tree,
                piece,
                i,
            ),
    decreases flat.len(),
{
    if flat.len() > 0 {
        let front = flat.drop_last();
        let n = flat.len() - 1;
        assert(flat.take(n) =~= front);
        lemma_sizes_prefix(flat, n);
        assert(0 <= flat[n].length);
        lemma_walk(front, tree, piece);
        let walk = walk_along(front, tree, piece)->Ok_0;
        lemma_boundary(walk.end, piece);
        if !(flat[n].kind is Padding) {
            assert(well_placed(flat, tree, piece, n));
        }
        assert forall|i: int| 0 <= i < flat.len() && !(flat[i].kind is Padding) implies #[trigger] well_placed(
            flat,
            tree,
            piece,
            i,
        ) by {
            if i < n {
                assert(front[i] == flat[i]);
                assert(front.take(i) =~= flat.take(i));
                assert(well_placed(front, tree, piece, i));
            }
        }
    }
}

/// The files that are not padding, in order.
pub open spec fn regular_files(files: Seq<FileModel>) -> Seq<FileModel>
    decreases files.len(),
{
    if files.len() == 0 {
        seq![]
    } else if files.last().kind is Padding {
        regular_files(files.drop_last())
    } else {
        regular_files(files.drop_last()).push(files.last())
    }
}

/// Where the last file with content ends, counted from the start of the list.
pub open spec fn content_end(files: Seq<FileModel>) -> int
    decreases files.len(),
{
    if files.len() == 0 {
        0
    } else if !(files.last().kind is Padding) && files.last().length > 0 {
        full_size(files)
    } else {
        content_end(files.drop_last())
    }
}

/// Whether the first files of the tree are these: path, length, kind and target are the same.
pub open spec fn starts_tree(files: Seq<FileModel>, tree: Seq<FileModel>) -> bool {
    &&& files.len() <= tree.len()
    &&& forall|k: int|
        0 <= k < files.len() ==> {
            &&& (#[trigger] files[k]).raw_path == tree[k].raw_path
            &&& files[k].length == tree[k].length
            &&& files[k].kind == tree[k].kind
            &&& files[k].raw_target == tree[k].raw_target
        }
}

/// Whether `at` is the first multiple of the piece length that is not below `end`.
pub open spec fn starts_next_piece(end: int, at: int, piece: int) -> bool {
    end <= at < end + piece && at % piece == 0
}

/// Whether every file with content starts at the first piece boundary behind the content before it.
pub open spec fn is_aligned(flat: Seq<FileModel>, piece: int) -> bool {
    forall|i: int|
        0 <= i < flat.len() && !(flat[i].kind is Padding) && (#[trigger] flat[i]).length > 0
            ==> starts_next_piece(content_end(flat.take(i)), full_size(flat.take(i)), piece)
}

/// A piece has one first boundary behind an end.
proof fn lemma_next_piece(end: int, at: int, piece: int)
    requires
        0 <= end,
        0 < piece,
    ensures
        starts_next_piece(end, at, piece) <==> at == boundary(end, piece),
{
    lemma_boundary(end, piece);
    if starts_next_piece(end, at, piece) {
        let b = boundary(end, piece);
        vstd::arithmetic::div_mod::lemma_fundamental_div_mod(at, piece);
        vstd::arithmetic::div_mod::lemma_fundamental_div_mod(b, piece);
        let x = at / piece;
        let y = b / piece;
        assert(x == y) by (nonlinear_arith)
            requires
                0 < piece,
                at == piece * x,
                b == piece * y,
                at < b + piece,
                b < at + piece,
        ;
    }
}

proof fn lemma_aligned_front(flat: Seq<FileModel>, piece: int)
    requires
        flat.len() > 0,
        is_aligned(flat, piece),
    ensures
        is_aligned(flat.drop_last(), piece),
{
    let front = flat.drop_last();
    assert forall|i: int|
        0 <= i < front.len() && !(front[i].kind is Padding) && (#[trigger] front[i]).length
            > 0 implies starts_next_piece(
        content_end(front.take(i)),
        full_size(front.take(i)),
        piece,
    ) by {
        assert(front[i] == flat[i]);
        assert(front.take(i) =~= flat.take(i));
    }
}

/// A walk that succeeds is one along aligned files that are those of the tree, and along such files
/// a walk succeeds.
proof fn lemma_walk_exact(flat: Seq<FileModel>, tree: Seq<FileModel>, piece: int)
    requires
        0 < piece,
        sizes_valid(flat),
        content_count(flat) <= tree.len(),
    ensures
        regular_files(flat).len() == content_count(flat),
        0 <= content_end(flat) <= full_size(flat),
        walk_along(flat, tree, piece) is Ok <==> starts_tree(regular_files(flat), tree)
            && is_aligned(flat, piece) && full_size(flat) <= u64::MAX,
        walk_along(flat, tree, piece) is Ok ==> walk_along(flat, tree, piece)->Ok_0 == (Walk {
            offset: full_size(flat),
            end: content_end(flat),
            matched: content_count(flat),
        }),
        full_size(flat) + piece <= u64::MAX ==> (walk_along(flat, tree, piece) is Err
            ==> walk_along(flat, tree, piece)->Err_0 == Reason::HybridLayout),
    decreases flat.len(),
{
    if flat.len() > 0 {
        let front = flat.drop_last();
        let n = flat.len() - 1;
        let file = flat[n];
        assert(flat.take(n) =~= front);
        lemma_sizes_prefix(flat, n);
        assert(0 <= flat[n].length);
        lemma_walk_exact(front, tree, piece);
        let before = regular_files(front);
        let listed = regular_files(flat);
        lemma_boundary(content_end(front), piece);
        lemma_next_piece(content_end(front), full_size(front), piece);
        let content = !(file.kind is Padding);
        if is_aligned(flat, piece) {
            lemma_aligned_front(flat, piece);
            if content && file.length > 0 {
                assert(starts_next_piece(content_end(flat.take(n)), full_size(flat.take(n)), piece));
            }
        }
        if is_aligned(front, piece) && (content && file.length > 0 ==> starts_next_piece(
            content_end(front),
            full_size(front),
            piece,
        )) {
            assert forall|i: int|
                0 <= i < flat.len() && !(flat[i].kind is Padding) && (#[trigger] flat[i]).length
                    > 0 implies starts_next_piece(
                content_end(flat.take(i)),
                full_size(flat.take(i)),
                piece,
            ) by {
                if i < n {
                    assert(front[i] == flat[i]);
                    assert(front.take(i) =~= flat.take(i));
                }
            }
        }
        if content {
            assert(listed =~= before.push(file));
            assert(listed[before.len() as int] == file);
            if starts_tree(listed, tree) {
                assert forall|k: int| 0 <= k < before.len() implies {
                    &&& (#[trigger] before[k]).raw_path == tree[k].raw_path
                    &&& before[k].length == tree[k].length
                    &&& before[k].kind == tree[k].kind
                    &&& before[k].raw_target == tree[k].raw_target
                } by {
                    assert(before[k] == listed[k]);
                }
                assert(same_file(file, tree[before.len() as int]));
            }
            if starts_tree(before, tree) && same_file(file, tree[before.len() as int]) {
                assert forall|k: int| 0 <= k < listed.len() implies {
                    &&& (#[trigger] listed[k]).raw_path == tree[k].raw_path
                    &&& listed[k].length == tree[k].length
                    &&& listed[k].kind == tree[k].kind
                    &&& listed[k].raw_target == tree[k].raw_target
                } by {
                    if k < before.len() {
                        assert(before[k] == listed[k]);
                    }
                }
            }
        } else {
            assert(listed =~= before);
        }
    }
}

/// The two layouts agree exactly where the files of the flat list that are not padding are the files
/// of the tree in order, each of them that has content starts at the first piece boundary behind the
/// content before it, the lengths add up to a number that can be held, and nothing stands behind
/// `limit`, the end of the last piece with content. Anything else is told as a layout that does not
/// agree, unless the numbers come near the largest one.
pub proof fn lemma_layouts_agree_exactly(
    flat: Seq<FileModel>,
    tree: Seq<FileModel>,
    piece: int,
    limit: int,
)
    requires
        0 < piece,
        sizes_valid(flat),
        content_end(flat) <= limit < content_end(flat) + piece,
        limit % piece == 0,
    ensures
        layouts_agree(flat, tree, piece) is Ok <==> {
            &&& regular_files(flat).len() == tree.len()
            &&& starts_tree(regular_files(flat), tree)
            &&& is_aligned(flat, piece)
            &&& full_size(flat) <= limit <= u64::MAX
        },
        full_size(flat) + piece <= u64::MAX && layouts_agree(flat, tree, piece) is Err
            ==> layouts_agree(flat, tree, piece) == Err::<(), Reason>(Reason::HybridLayout),
{
    lemma_regular_count(flat);
    if content_count(flat) <= tree.len() {
        lemma_walk_exact(flat, tree, piece);
    }
    lemma_content_end(flat);
    lemma_next_piece(content_end(flat), limit, piece);
}

proof fn lemma_regular_count(files: Seq<FileModel>)
    ensures
        regular_files(files).len() == content_count(files),
    decreases files.len(),
{
    if files.len() > 0 {
        lemma_regular_count(files.drop_last());
    }
}

proof fn lemma_content_end(files: Seq<FileModel>)
    requires
        sizes_valid(files),
    ensures
        0 <= content_end(files) <= full_size(files),
    decreases files.len(),
{
    if files.len() > 0 {
        let n = files.len() - 1;
        assert(files.take(n) =~= files.drop_last());
        lemma_sizes_prefix(files, n);
        assert(0 <= files[n].length);
        lemma_content_end(files.drop_last());
    }
}

/// One file more is regular unless it is padding, and moves the end of the content where it has any.
pub proof fn lemma_regular_grows(files: Seq<FileModel>, file: FileModel)
    ensures
        regular_files(Seq::empty()).len() == 0,
        content_end(Seq::empty()) == 0,
        regular_files(files.push(file)) == if file.kind is Padding {
            regular_files(files)
        } else {
            regular_files(files).push(file)
        },
        content_end(files.push(file)) == if file.kind is Padding || file.length <= 0 {
            content_end(files)
        } else {
            full_size(files) + file.length
        },
{
    assert(files.push(file).drop_last() =~= files);
}

} // verus!
