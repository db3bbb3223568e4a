//! Paths that exclude each other, and links that lead nowhere.

use crate::metainfo::files::{file_models, path_model, FileKind, FileModel, TorrentFile};
use crate::order::{
    bytes_equal, bytes_less, lemma_path_total, lemma_path_transitive, lemma_prefix_between,
    lemma_prefix_not_after, path_before, path_within,
};
use crate::text::parts_view;
use vstd::prelude::*;

verus! {

/// The raw path of a file.
pub type RawPath = Seq<Seq<u8>>;

/// The raw paths of all files but the padding, in order.
pub open spec fn content_paths(files: Seq<FileModel>) -> Seq<RawPath>
    decreases files.len(),
{
    if files.len() == 0 {
        seq![]
    } else if files.last().kind is Padding {
        content_paths(files.drop_last())
    } else {
        content_paths(files.drop_last()).push(files.last().raw_path)
    }
}

/// Whether two of the paths are equal, or one leads through the other.
pub open spec fn in_conflict(paths: Seq<RawPath>) -> bool {
    exists|i: int, j: int|
        0 <= i < paths.len() && 0 <= j < paths.len() && i != j && #[trigger] path_within(
            paths[i],
            paths[j],
        )
}

/// Whether a path is one of `paths`, or a directory above one of them.
pub open spec fn leads_somewhere(target: RawPath, paths: Seq<RawPath>) -> bool {
    exists|i: int| 0 <= i < paths.len() && path_within(target, #[trigger] paths[i])
}

/// Whether the target of some link is neither a file nor a directory of the torrent.
pub open spec fn has_dangling_link(files: Seq<FileModel>) -> bool {
    exists|i: int|
        0 <= i < files.len() && (#[trigger] files[i]).raw_target is Some && !leads_somewhere(
            files[i].raw_target->0,
            content_paths(files),
        )
}

/// The raw paths behind a list of references.
pub open spec fn path_views(paths: Seq<&Vec<Vec<u8>>>) -> Seq<RawPath> {
    paths.map_values(|path: &Vec<Vec<u8>>| parts_view(path@))
}

/// Whether no path comes before one that stands ahead of it.
pub open spec fn is_sorted(paths: Seq<RawPath>) -> bool {
    forall|i: int, j: int|
        0 <= i < j < paths.len() ==> !path_before(#[trigger] paths[j], #[trigger] paths[i])
}

/// `<[T]>::sort_unstable` keeps the elements and puts them in ascending order, which for vectors
/// is the lexicographic order of their elements.
#[verifier::external_body]
fn sort_paths(paths: &mut Vec<&Vec<Vec<u8>>>)
    ensures
        path_views(final(paths)@).to_multiset() == path_views(old(paths)@).to_multiset(),
        is_sorted(path_views(final(paths)@)),
{
    paths.sort_unstable();
}

/// Whether path `a` comes before `b`.
pub(crate) fn path_less(a: &Vec<Vec<u8>>, b: &Vec<Vec<u8>>) -> (less: bool)
    ensures
        less == path_before(parts_view(a@), parts_view(b@)),
{
    let ghost x = parts_view(a@);
    let ghost y = parts_view(b@);
    let mut i: usize = 0;
    assert(x.skip(0) =~= x && y.skip(0) =~= y);
    while i < a.len() && i < b.len()
        invariant
            x == parts_view(a@),
            y == parts_view(b@),
            i <= a.len(),
            i <= b.len(),
            path_before(x, y) == path_before(x.skip(i as int), y.skip(i as int)),
        decreases a.len() - i,
    {
        assert(x.skip(i as int)[0] == a@[i as int]@);
        assert(y.skip(i as int)[0] == b@[i as int]@);
        if bytes_less(a[i].as_slice(), b[i].as_slice()) {
            return true;
        }
        if !bytes_equal(a[i].as_slice(), b[i].as_slice()) {
            return false;
        }
        assert(x.skip(i as int).drop_first() =~= x.skip(i + 1));
        assert(y.skip(i as int).drop_first() =~= y.skip(i + 1));
        i += 1;
    }
    i < b.len()
}

/// Whether `a` is a prefix of `b`.
fn starts_with(b: &Vec<Vec<u8>>, a: &Vec<Vec<u8>>) -> (prefix: bool)
    ensures
        prefix == path_within(parts_view(a@), parts_view(b@)),
{
    let ghost x = parts_view(a@);
    let ghost y = parts_view(b@);
    if a.len() > b.len() {
        return false;
    }
    for i in 0..a.len()
        invariant
            x == parts_view(a@),
            y == parts_view(b@),
            a.len() <= b.len(),
            forall|k: int| 0 <= k < i ==> x[k] == y[k],
    {
        if !bytes_equal(a[i].as_slice(), b[i].as_slice()) {
            assert(y.take(x.len() as int)[i as int] != x[i as int]);
            return false;
        }
    }
    assert(y.take(x.len() as int) =~= x);
    true
}

/// Whether two paths are equal.
pub fn same_path(a: &Vec<Vec<u8>>, b: &Vec<Vec<u8>>) -> (same: bool)
    ensures
        same == (parts_view(a@) == parts_view(b@)),
{
    proof {
        assert(parts_view(a@).len() == a.len() && parts_view(b@).len() == b.len());
        if a.len() == b.len() {
            assert(parts_view(b@).take(a.len() as int) =~= parts_view(b@));
        }
    }
    a.len() == b.len() && starts_with(b, a)
}

/// Whether two paths that may be missing are equal.
pub fn same_target(a: &Option<Vec<Vec<u8>>>, b: &Option<Vec<Vec<u8>>>) -> (same: bool)
    ensures
        same == (path_model(*a) == path_model(*b)),
{
    match (a, b) {
        (Some(a), Some(b)) => same_path(a, b),
        (None, None) => true,
        _ => false,
    }
}

/// A conflict does not depend on the order of the paths.
proof fn lemma_conflict_unordered(a: Seq<RawPath>, b: Seq<RawPath>)
    requires
        a.to_multiset() == b.to_multiset(),
        in_conflict(a),
    ensures
        in_conflict(b),
{
    broadcast use vstd::seq_lib::group_to_multiset_ensures;

    let (i, j) = choose|i: int, j: int|
        0 <= i < a.len() && 0 <= j < a.len() && i != j && #[trigger] path_within(a[i], a[j]);
    assert(a.contains(a[i]) && a.contains(a[j]));
    assert(b.to_multiset().count(a[i]) > 0 && b.to_multiset().count(a[j]) > 0);
    if a[i] != a[j] {
        let m = choose|m: int| 0 <= m < b.len() && b[m] == a[i];
        let n = choose|n: int| 0 <= n < b.len() && b[n] == a[j];
        assert(path_within(b[m], b[n]));
    } else {
        if b.no_duplicates() {
            b.lemma_multiset_has_no_duplicates();
            a.lemma_multiset_has_no_duplicates_conv();
            assert(false);
        }
        let (m, n) = choose|m: int, n: int|
            0 <= m < b.len() && 0 <= n < b.len() && m != n && b[m] == b[n];
        assert(b[n].take(b[n].len() as int) =~= b[n]);
        assert(path_within(b[m], b[n]));
    }
}

/// Where a path leads does not depend on the order of the paths.
proof fn lemma_lead_unordered(target: RawPath, a: Seq<RawPath>, b: Seq<RawPath>)
    requires
        a.to_multiset() == b.to_multiset(),
        leads_somewhere(target, a),
    ensures
        leads_somewhere(target, b),
{
    broadcast use vstd::seq_lib::group_to_multiset_ensures;

    let i = choose|i: int| 0 <= i < a.len() && path_within(target, #[trigger] a[i]);
    assert(a.contains(a[i]));
    assert(b.to_multiset().count(a[i]) > 0);
    let m = choose|m: int| 0 <= m < b.len() && b[m] == a[i];
    assert(path_within(target, b[m]));
}

/// Among sorted paths, a conflict shows between two neighbours.
proof fn lemma_conflict_neighbours(paths: Seq<RawPath>)
    requires
        is_sorted(paths),
        in_conflict(paths),
    ensures
        exists|k: int| 0 <= k < paths.len() - 1 && path_within(#[trigger] paths[k], paths[k + 1]),
{
    let (i, j) = choose|i: int, j: int|
        0 <= i < paths.len() && 0 <= j < paths.len() && i != j && #[trigger] path_within(
            paths[i],
            paths[j],
        );
    let (low, high) = if i < j {
        (i, j)
    } else {
        (j, i)
    };
    if j < i {
        lemma_prefix_not_after(paths[i], paths[j]);
        lemma_path_total(paths[i], paths[j]);
        assert(paths[i] == paths[j]);
    }
    assert(path_within(paths[low], paths[high]));
    if low + 1 < high {
        lemma_prefix_between(paths[low], paths[low + 1], paths[high]);
    }
    assert(path_within(paths[low], paths[low + 1]));
}

/// References to the raw paths of all files but the padding.
fn collect_paths<'a>(files: &'a Vec<TorrentFile>) -> (paths: Vec<&'a Vec<Vec<u8>>>)
    ensures
        path_views(paths@) == content_paths(file_models(files@)),
{
    let ghost models = file_models(files@);
    let mut paths: Vec<&'a Vec<Vec<u8>>> = Vec::new();
    assert(path_views(paths@) =~= seq![]);
    for i in 0..files.len()
        invariant
            models == file_models(files@),
            path_views(paths@) == content_paths(models.take(i as int)),
    {
        proof {
            assert(models.take(i + 1).drop_last() =~= models.take(i as int));
            assert(models.take(i + 1).last() == files@[i as int]@);
        }
        if files[i].kind != FileKind::Padding {
            let ghost before = path_views(paths@);
            paths.push(&files[i].raw_path);
            assert(path_views(paths@) =~= before.push(files@[i as int]@.raw_path));
        }
    }
    assert(models.take(models.len() as int) =~= models);
    paths
}

/// The paths of all files but the padding, in ascending order.
pub fn sorted_paths<'a>(files: &'a Vec<TorrentFile>) -> (paths: Vec<&'a Vec<Vec<u8>>>)
    ensures
        is_sorted(path_views(paths@)),
        path_views(paths@).to_multiset() == content_paths(file_models(files@)).to_multiset(),
{
    let mut paths = collect_paths(files);
    sort_paths(&mut paths);
    paths
}

/// Whether two of the sorted paths exclude each other.
pub fn paths_conflict(paths: &Vec<&Vec<Vec<u8>>>) -> (conflict: bool)
    requires
        is_sorted(path_views(paths@)),
    ensures
        conflict == in_conflict(path_views(paths@)),
{
    let ghost view = path_views(paths@);
    if paths.len() > 0 {
        for i in 0..paths.len() - 1
            invariant
                view == path_views(paths@),
                0 < paths.len(),
                forall|k: int| 0 <= k < i ==> !path_within(#[trigger] view[k], view[k + 1]),
        {
            assert(view[i as int] == parts_view(paths@[i as int]@));
            assert(view[i + 1] == parts_view(paths@[i + 1]@));
            if starts_with(paths[i + 1], paths[i]) {
                assert(path_within(view[i as int], view[i + 1]));
                return true;
            }
        }
    }
    proof {
        if in_conflict(view) {
            lemma_conflict_neighbours(view);
        }
    }
    false
}

/// Whether a path is one of the sorted paths, or a directory above one of them.
pub fn target_exists(target: &Vec<Vec<u8>>, paths: &Vec<&Vec<Vec<u8>>>) -> (found: bool)
    requires
        is_sorted(path_views(paths@)),
    ensures
        found == leads_somewhere(parts_view(target@), path_views(paths@)),
{
    let ghost view = path_views(paths@);
    let ghost goal = parts_view(target@);
    let mut low: usize = 0;
    let mut high: usize = paths.len();
    while low < high
        invariant
            view == path_views(paths@),
            goal == parts_view(target@),
            is_sorted(view),
            low <= high <= paths.len(),
            forall|k: int| 0 <= k < low ==> path_before(#[trigger] view[k], goal),
            forall|k: int| high <= k < view.len() ==> !path_before(#[trigger] view[k], goal),
        decreases high - low,
    {
        let middle: usize = low + (high - low) / 2;
        assert(view[middle as int] == parts_view(paths@[middle as int]@));
        if path_less(paths[middle], target) {
            assert forall|k: int| 0 <= k < middle + 1 implies path_before(
                #[trigger] view[k],
                goal,
            ) by {
                if k < middle {
                    lemma_path_total(view[k], view[middle as int]);
                    if path_before(view[k], view[middle as int]) {
                        lemma_path_transitive(view[k], view[middle as int], goal);
                    }
                }
            }
            low = middle + 1;
        } else {
            assert forall|k: int| middle <= k < view.len() implies !path_before(
                #[trigger] view[k],
                goal,
            ) by {
                if k > middle && path_before(view[k], goal) {
                    lemma_path_total(view[middle as int], view[k]);
                    if path_before(view[middle as int], view[k]) {
                        lemma_path_transitive(view[middle as int], view[k], goal);
                    }
                }
            }
            high = middle;
        }
    }
    proof {
        if leads_somewhere(goal, view) {
            let i = choose|i: int| 0 <= i < view.len() && path_within(goal, #[trigger] view[i]);
            lemma_prefix_not_after(goal, view[i]);
            assert(low <= i);
            if low < i {
                lemma_prefix_between(goal, view[low as int], view[i]);
            }
            assert(path_within(goal, view[low as int]));
        }
    }
    if low < paths.len() {
        assert(view[low as int] == parts_view(paths@[low as int]@));
        starts_with(paths[low], target)
    } else {
        false
    }
}

/// Whether the target of some link leads nowhere, where `paths` are the sorted paths of `files`.
pub fn any_dangling(files: &Vec<TorrentFile>, paths: &Vec<&Vec<Vec<u8>>>) -> (dangling: bool)
    requires
        is_sorted(path_views(paths@)),
        path_views(paths@).to_multiset() == content_paths(file_models(files@)).to_multiset(),
    ensures
        dangling == has_dangling_link(file_models(files@)),
{
    let ghost models = file_models(files@);
    let ghost all = content_paths(models);
    let ghost sorted = path_views(paths@);
    for i in 0..files.len()
        invariant
            models == file_models(files@),
            all == content_paths(models),
            sorted == path_views(paths@),
            is_sorted(sorted),
            sorted.to_multiset() == all.to_multiset(),
            forall|k: int|
                0 <= k < i ==> (#[trigger] models[k]).raw_target is Some ==> leads_somewhere(
                    models[k].raw_target->0,
                    all,
                ),
    {
        assert(models[i as int] == files@[i as int]@);
        if let Some(target) = &files[i].raw_target {
            let found = target_exists(target, paths);
            proof {
                let goal = parts_view(target@);
                if leads_somewhere(goal, sorted) {
                    lemma_lead_unordered(goal, sorted, all);
                } else if leads_somewhere(goal, all) {
                    lemma_lead_unordered(goal, all, sorted);
                }
            }
            if !found {
                return true;
            }
        }
    }
    false
}

/// Whether two of the files exclude each other, where `paths` are the sorted paths of `files`.
pub fn files_conflict(files: &Vec<TorrentFile>, paths: &Vec<&Vec<Vec<u8>>>) -> (conflict: bool)
    requires
        is_sorted(path_views(paths@)),
        path_views(paths@).to_multiset() == content_paths(file_models(files@)).to_multiset(),
    ensures
        conflict == in_conflict(content_paths(file_models(files@))),
{
    let conflict = paths_conflict(paths);
    proof {
        let all = content_paths(file_models(files@));
        let sorted = path_views(paths@);
        if in_conflict(all) {
            lemma_conflict_unordered(all, sorted);
        }
        if in_conflict(sorted) {
            lemma_conflict_unordered(sorted, all);
        }
    }
    conflict
}

} // verus!
