//! Piece layouts: how the files of a torrent fill its pieces.

use crate::bencode::{entry_trees, Entry};
use crate::metainfo::fields::{bytes, key_bytes, required, required_bytes, Pairs};
use crate::metainfo::files::{file_models, FileKind, FileModel, TorrentFile};
use crate::reason::Reason;
use vstd::prelude::*;

verus! {

/// The number of pieces of length `piece` that `size` bytes fill, the last one perhaps in part.
pub open spec fn pieces_for(size: int, piece: int) -> int {
    size / piece + if size % piece > 0 {
        1int
    } else {
        0
    }
}

/// The first piece boundary that is not below `at`.
pub open spec fn boundary(at: int, piece: int) -> int {
    piece * pieces_for(at, piece)
}

/// The length of all files together.
pub open spec fn full_size(files: Seq<FileModel>) -> int
    decreases files.len(),
{
    if files.len() == 0 {
        0
    } else {
        full_size(files.drop_last()) + files.last().length
    }
}

/// The length of all files but the padding.
pub open spec fn content_size(files: Seq<FileModel>) -> int
    decreases files.len(),
{
    if files.len() == 0 {
        0
    } else {
        content_size(files.drop_last()) + if files.last().kind is Padding {
            0
        } else {
            files.last().length
        }
    }
}

/// The length of the padding.
pub open spec fn padding_size(files: Seq<FileModel>) -> int
    decreases files.len(),
{
    if files.len() == 0 {
        0
    } else {
        padding_size(files.drop_last()) + if files.last().kind is Padding {
            files.last().length
        } else {
            0
        }
    }
}

/// The number of files that are not padding.
pub open spec fn content_count(files: Seq<FileModel>) -> int
    decreases files.len(),
{
    if files.len() == 0 {
        0
    } else {
        content_count(files.drop_last()) + if files.last().kind is Padding {
            0int
        } else {
            1
        }
    }
}

/// The piece space that the files take where every file with content starts a piece of its own.
pub open spec fn aligned_space(files: Seq<FileModel>, piece: int) -> int
    decreases files.len(),
{
    if files.len() == 0 {
        0
    } else if files.last().length > 0 {
        boundary(aligned_space(files.drop_last(), piece), piece) + files.last().length
    } else {
        aligned_space(files.drop_last(), piece)
    }
}

/// The number of pieces that the files take where no piece is shared.
pub open spec fn aligned_pieces(files: Seq<FileModel>, piece: int) -> int
    decreases files.len(),
{
    if files.len() == 0 {
        0
    } else {
        aligned_pieces(files.drop_last(), piece) + pieces_for(files.last().length, piece)
    }
}

/// The length of the piece space: with `aligned`, every file with content starts a piece.
pub open spec fn piece_space(files: Seq<FileModel>, piece: int, aligned: bool) -> int {
    if aligned {
        aligned_space(files, piece)
    } else {
        full_size(files)
    }
}

/// Whether no file has a negative length.
pub open spec fn sizes_valid(files: Seq<FileModel>) -> bool {
    forall|i: int| 0 <= i < files.len() ==> 0 <= (#[trigger] files[i]).length
}

/// Piece counts and boundaries bracket the position that they are made for.
pub proof fn lemma_boundary(at: int, piece: int)
    requires
        0 <= at,
        0 < piece,
    ensures
        0 <= pieces_for(at, piece) <= at,
        at <= boundary(at, piece) < at + piece,
        boundary(at, piece) % piece == 0,
        boundary(at, piece) == at + (piece - at % piece) % piece,
        at > 0 ==> pieces_for(at, piece) >= 1,
{
    let q = at / piece;
    let r = at % piece;
    assert(at == piece * q + r && 0 <= r < piece && 0 <= q) by {
        vstd::arithmetic::div_mod::lemma_fundamental_div_mod(at, piece);
        vstd::arithmetic::div_mod::lemma_div_pos_is_pos(at, piece);
    }
    assert(q <= piece * q) by (nonlinear_arith)
        requires
            0 < piece,
            0 <= q,
    ;
    assert(piece * (q + 1) == piece * q + piece) by (nonlinear_arith);
    let n = pieces_for(at, piece);
    assert((piece * n) % piece == 0) by {
        vstd::arithmetic::div_mod::lemma_mod_multiples_basic(n, piece);
        assert(piece * n == n * piece) by (nonlinear_arith);
    }
    if r == 0 {
        assert((piece - 0) % piece == 0) by {
            vstd::arithmetic::div_mod::lemma_mod_self_0(piece);
        }
    } else {
        assert((piece - r) % piece == piece - r) by {
            vstd::arithmetic::div_mod::lemma_small_mod((piece - r) as nat, piece as nat);
        }
    }
}

/// No sum is negative, and none exceeds the piece space that it is part of.
pub proof fn lemma_sums_bounded(files: Seq<FileModel>, piece: int, aligned: bool)
    requires
        0 < piece,
        sizes_valid(files),
    ensures
        0 <= content_size(files),
        0 <= padding_size(files),
        content_size(files) + padding_size(files) == full_size(files),
        full_size(files) <= piece_space(files, piece, aligned),
        0 <= aligned_pieces(files, piece) <= full_size(files),
        0 <= content_count(files) <= files.len(),
    decreases files.len(),
{
    if files.len() > 0 {
        let front = files.drop_last();
        assert forall|i: int| 0 <= i < front.len() implies 0 <= (#[trigger] front[i]).length by {
            assert(front[i] == files[i]);
        }
        assert(0 <= files[files.len() - 1].length);
        lemma_sums_bounded(front, piece, aligned);
        lemma_boundary(files.last().length, piece);
        if aligned {
            lemma_boundary(aligned_space(front, piece), piece);
        }
    }
}

/// The sums over a prefix do not exceed those over the whole.
proof fn lemma_sums_grow(files: Seq<FileModel>, piece: int, aligned: bool, n: int)
    requires
        0 < piece,
        sizes_valid(files),
        0 <= n <= files.len(),
    ensures
        full_size(files.take(n)) <= full_size(files),
        piece_space(files.take(n), piece, aligned) <= piece_space(files, piece, aligned),
    decreases files.len(),
{
    if n == files.len() {
        assert(files.take(n) =~= files);
    } else {
        let front = files.drop_last();
        assert forall|i: int| 0 <= i < front.len() implies 0 <= (#[trigger] front[i]).length by {
            assert(front[i] == files[i]);
        }
        assert(front.take(n) =~= files.take(n));
        assert(0 <= files[files.len() - 1].length);
        lemma_sums_grow(front, piece, aligned, n);
        if aligned {
            lemma_sums_bounded(front, piece, true);
            lemma_boundary(aligned_space(front, piece), piece);
        }
    }
}

/// A prefix of valid files is valid.
pub proof fn lemma_sizes_prefix(files: Seq<FileModel>, n: int)
    requires
        sizes_valid(files),
        0 <= n <= files.len(),
    ensures
        sizes_valid(files.take(n)),
{
    assert forall|i: int| 0 <= i < n implies 0 <= (#[trigger] files.take(n)[i]).length by {
        assert(files.take(n)[i] == files[i]);
    }
}

/// Lengths that are held in unsigned numbers are not negative.
pub proof fn lemma_models_valid(files: Seq<TorrentFile>)
    ensures
        sizes_valid(file_models(files)),
{
    assert forall|i: int| 0 <= i < files.len() implies 0 <= (#[trigger] file_models(
        files,
    )[i]).length by {
        assert(file_models(files)[i] == files[i]@);
    }
}

/// The number of pieces that `size` bytes fill.
pub fn count_pieces(size: u64, piece: u64) -> (pieces: u64)
    requires
        0 < piece,
    ensures
        pieces == pieces_for(size as int, piece as int),
{
    proof {
        lemma_boundary(size as int, piece as int);
    }
    if size % piece > 0 {
        size / piece + 1
    } else {
        size / piece
    }
}

/// The first piece boundary that is not below `at`, if it can be held.
pub fn next_boundary(at: u64, piece: u64) -> (aligned: Option<u64>)
    requires
        0 < piece,
    ensures
        aligned == (if boundary(at as int, piece as int) > u64::MAX {
            None
        } else {
            Some(boundary(at as int, piece as int) as u64)
        }),
{
    proof {
        lemma_boundary(at as int, piece as int);
    }
    at.checked_add((piece - at % piece) % piece)
}

/// The number of pieces that the flat layout promises: one hash of twenty bytes for each.
pub open spec fn flat_pieces(pairs: Pairs, files: Seq<FileModel>, piece: int) -> Result<
    int,
    Reason,
> {
    match required_bytes(pairs, key_bytes("pieces")) {
        Err(reason) => Err(reason),
        Ok(hashes) => if full_size(files) > u64::MAX {
            Err(Reason::LengthOverflow)
        } else if hashes.len() % 20 != 0 || hashes.len() as int / 20 != pieces_for(
            full_size(files),
            piece,
        ) {
            Err(Reason::PieceCount)
        } else {
            Ok(hashes.len() as int / 20)
        },
    }
}

/// Checks that the flat layout has one hash for each piece, and counts the pieces.
pub fn check_v1(entries: &Vec<Entry>, files: &Vec<TorrentFile>, piece_length: u64) -> (result: Result<
    u64,
    Reason,
>)
    requires
        0 < piece_length,
    ensures
        match flat_pieces(entry_trees(entries@), file_models(files@), piece_length as int) {
            Ok(count) => result is Ok && result->Ok_0 == count,
            Err(reason) => result == Err::<u64, Reason>(reason),
        },
{
    let hashes = match required(entries, "pieces".as_bytes()) {
        Err(reason) => {
            return Err(reason);
        },
        Ok(value) => match bytes(value) {
            Err(reason) => {
                return Err(reason);
            },
            Ok(hashes) => hashes,
        },
    };
    let ghost models = file_models(files@);
    proof {
        lemma_models_valid(files@);
    }
    let mut total: u64 = 0;
    for i in 0..files.len()
        invariant
            models == file_models(files@),
            sizes_valid(models),
            0 < piece_length,
            total == full_size(models.take(i as int)),
            required_bytes(entry_trees(entries@), key_bytes("pieces")) is Ok,
    {
        proof {
            assert(models.take(i + 1).drop_last() =~= models.take(i as int));
            assert(models.take(i + 1).last() == files@[i as int]@);
            lemma_sums_grow(models, piece_length as int, false, i + 1);
        }
        match total.checked_add(files[i].length) {
            Some(sum) => {
                total = sum;
            },
            None => {
                return Err(Reason::LengthOverflow);
            },
        }
    }
    assert(models.take(models.len() as int) =~= models);
    let count: u64 = hashes.len() as u64 / 20;
    if hashes.len() % 20 != 0 || count != count_pieces(total, piece_length) {
        return Err(Reason::PieceCount);
    }
    Ok(count)
}

/// What the sizes of all files add up to.
#[derive(Debug)]
pub struct Totals {
    pub total_length: u64,
    pub padding_length: u64,
    pub piece_space_length: u64,
    pub aligned_pieces: u64,
    pub file_count: usize,
}

/// Adds the sizes up. With `aligned`, every file with content starts a piece of its own.
pub fn add_up(files: &Vec<TorrentFile>, piece_length: u64, aligned: bool) -> (result: Result<
    Totals,
    Reason,
>)
    requires
        0 < piece_length,
    ensures
        ({
            let models = file_models(files@);
            let space = piece_space(models, piece_length as int, aligned);
            if space > u64::MAX {
                result == Err::<Totals, Reason>(Reason::LengthOverflow)
            } else {
                &&& result is Ok
                &&& result->Ok_0.total_length == content_size(models)
                &&& result->Ok_0.padding_length == padding_size(models)
                &&& result->Ok_0.piece_space_length == space
                &&& aligned ==> result->Ok_0.aligned_pieces == aligned_pieces(
                    models,
                    piece_length as int,
                )
                &&& result->Ok_0.file_count == content_count(models)
            }
        }),
{
    let ghost models = file_models(files@);
    let ghost piece = piece_length as int;
    proof {
        lemma_models_valid(files@);
    }
    let mut totals = Totals {
        total_length: 0,
        padding_length: 0,
        piece_space_length: 0,
        aligned_pieces: 0,
        file_count: 0,
    };
    for i in 0..files.len()
        invariant
            models == file_models(files@),
            sizes_valid(models),
            piece == piece_length,
            0 < piece,
            totals.total_length == content_size(models.take(i as int)),
            totals.padding_length == padding_size(models.take(i as int)),
            totals.piece_space_length == piece_space(models.take(i as int), piece, aligned),
            aligned ==> totals.aligned_pieces == aligned_pieces(models.take(i as int), piece),
            totals.file_count == content_count(models.take(i as int)),
    {
        let ghost now = models.take(i as int);
        let ghost next = models.take(i + 1);
        let length: u64 = files[i].length;
        proof {
            assert(next.drop_last() =~= now);
            assert(next.last() == files@[i as int]@);
            lemma_sizes_prefix(models, i as int);
            lemma_sizes_prefix(models, i + 1);
            lemma_sums_grow(models, piece, aligned, i + 1);
            lemma_sums_bounded(now, piece, aligned);
            lemma_sums_bounded(next, piece, aligned);
            lemma_boundary(totals.piece_space_length as int, piece);
            lemma_boundary(length as int, piece);
        }
        let start: u64 = if aligned && length > 0 {
            match next_boundary(totals.piece_space_length, piece_length) {
                Some(start) => start,
                None => {
                    return Err(Reason::LengthOverflow);
                },
            }
        } else {
            totals.piece_space_length
        };
        match start.checked_add(length) {
            Some(space) => {
                totals.piece_space_length = space;
            },
            None => {
                return Err(Reason::LengthOverflow);
            },
        }
        if files[i].kind == FileKind::Padding {
            totals.padding_length = totals.padding_length + length;
        } else {
            totals.total_length = totals.total_length + length;
            totals.file_count = totals.file_count + 1;
        }
        if aligned {
            totals.aligned_pieces = totals.aligned_pieces + count_pieces(length, piece_length);
        }
    }
    assert(models.take(models.len() as int) =~= models);
    Ok(totals)
}

} // verus!
