//! What holds of every document and of every valid info dictionary.

use crate::bencode::{key_slot, read_items, read_pairs, read_value, Read, TokenModel, Tree, VALUE_COST};
use crate::metainfo::analysis::{describe_info, Format, InfoModel};
use crate::metainfo::fields::Pairs;
use crate::metainfo::files::FileModel;
use crate::metainfo::layout::{
    aligned_pieces, aligned_space, lemma_boundary, lemma_sums_bounded, pieces_for, sizes_valid,
};
use crate::metainfo::paths::{content_paths, has_dangling_link, in_conflict};
use crate::order::{bytes_before, lemma_bytes_total, lemma_bytes_transitive};
use crate::reason::Reason;
use vstd::arithmetic::power2::is_pow2;
use vstd::prelude::*;

verus! {

/// Whether the keys of pairs ascend, so that none occurs twice.
pub open spec fn keys_ascend(pairs: Seq<(Seq<u8>, Tree)>) -> bool {
    forall|i: int, j: int|
        0 <= i < j < pairs.len() ==> bytes_before((#[trigger] pairs[i]).0, (#[trigger] pairs[j]).0)
}

/// Whether the keys of all dictionaries in a value ascend.
pub open spec fn in_order(tree: Tree) -> bool
    decreases tree,
{
    match tree {
        Tree::Bytes(_) => true,
        Tree::Integer(_) => true,
        Tree::List(items) => forall|i: int| 0 <= i < items.len() ==> in_order(#[trigger] items[i]),
        Tree::Dict(pairs) => keys_ascend(pairs) && forall|i: int|
            0 <= i < pairs.len() ==> in_order((#[trigger] pairs[i]).1),
    }
}

/// How many values there are in a value, itself among them.
pub open spec fn value_count(tree: Tree) -> int
    decreases tree,
{
    match tree {
        Tree::Bytes(_) => 1,
        Tree::Integer(_) => 1,
        Tree::List(items) => 1 + item_count(items),
        Tree::Dict(pairs) => 1 + pair_count(pairs),
    }
}

/// How many values there are in the items of a list.
pub open spec fn item_count(items: Seq<Tree>) -> int
    decreases items,
{
    if items.len() == 0 {
        0
    } else {
        item_count(items.drop_last()) + value_count(items.last())
    }
}

/// How many values there are in the pairs of a dictionary.
pub open spec fn pair_count(pairs: Seq<(Seq<u8>, Tree)>) -> int
    decreases pairs,
{
    if pairs.len() == 0 {
        0
    } else {
        pair_count(pairs.drop_last()) + value_count(pairs.last().1)
    }
}

/// The values in pairs with one more.
proof fn lemma_pair_insert(pairs: Seq<(Seq<u8>, Tree)>, slot: int, pair: (Seq<u8>, Tree))
    requires
        0 <= slot <= pairs.len(),
    ensures
        pair_count(pairs.insert(slot, pair)) == pair_count(pairs) + value_count(pair.1),
    decreases pairs.len(),
{
    let next = pairs.insert(slot, pair);
    if slot == pairs.len() {
        assert(next.drop_last() =~= pairs);
    } else {
        lemma_pair_insert(pairs.drop_last(), slot, pair);
        assert(next.drop_last() =~= pairs.drop_last().insert(slot, pair));
    }
}

/// A key has a place among ascending keys: those before do not come behind it, and those behind do.
pub proof fn lemma_slot(pairs: Seq<(Seq<u8>, Tree)>, key: Seq<u8>)
    requires
        keys_ascend(pairs),
    ensures
        0 <= key_slot(pairs, key) <= pairs.len(),
        forall|i: int|
            0 <= i < key_slot(pairs, key) ==> !bytes_before(key, (#[trigger] pairs[i]).0),
        forall|i: int|
            key_slot(pairs, key) <= i < pairs.len() ==> bytes_before(
                key,
                (#[trigger] pairs[i]).0,
            ),
    decreases pairs.len(),
{
    if pairs.len() > 0 {
        let rest = pairs.drop_last();
        lemma_slot(rest, key);
        let slot = key_slot(pairs, key);
        if bytes_before(key, pairs.last().0) {
            assert forall|i: int| 0 <= i < slot implies !bytes_before(
                key,
                (#[trigger] pairs[i]).0,
            ) by {
                assert(rest[i] == pairs[i]);
            }
            assert forall|i: int| slot <= i < pairs.len() implies bytes_before(
                key,
                (#[trigger] pairs[i]).0,
            ) by {
                if i < rest.len() {
                    assert(rest[i] == pairs[i]);
                }
            }
        } else {
            assert forall|i: int| 0 <= i < slot implies !bytes_before(
                key,
                (#[trigger] pairs[i]).0,
            ) by {
                if i < rest.len() && bytes_before(key, pairs[i].0) {
                    assert(bytes_before(pairs[i].0, pairs[pairs.len() - 1].0));
                    lemma_bytes_transitive(key, pairs[i].0, pairs.last().0);
                }
            }
        }
    }
}

/// A new key leaves the keys ascending.
proof fn lemma_keys_insert(pairs: Seq<(Seq<u8>, Tree)>, key: Seq<u8>, value: Tree)
    requires
        keys_ascend(pairs),
        !(key_slot(pairs, key) > 0 && pairs[key_slot(pairs, key) - 1].0 == key),
    ensures
        keys_ascend(pairs.insert(key_slot(pairs, key), (key, value))),
{
    let slot = key_slot(pairs, key);
    let next = pairs.insert(slot, (key, value));
    lemma_slot(pairs, key);
    assert forall|i: int| 0 <= i < slot implies bytes_before((#[trigger] pairs[i]).0, key) by {
        lemma_bytes_total(pairs[i].0, key);
        if pairs[i].0 == key {
            if i < slot - 1 {
                assert(bytes_before(pairs[i].0, pairs[slot - 1].0));
                assert(!bytes_before(key, pairs[slot - 1].0));
            }
        }
    }
    assert forall|i: int, j: int| 0 <= i < j < next.len() implies bytes_before(
        (#[trigger] next[i]).0,
        (#[trigger] next[j]).0,
    ) by {
        if j < slot {
            assert(next[i] == pairs[i] && next[j] == pairs[j]);
        } else if j == slot {
            assert(next[i] == pairs[i]);
        } else if i < slot {
            assert(next[i] == pairs[i] && next[j] == pairs[j - 1]);
            assert(bytes_before(pairs[i].0, pairs[j - 1].0));
        } else if i == slot {
            assert(next[j] == pairs[j - 1]);
        } else {
            assert(next[i] == pairs[i - 1] && next[j] == pairs[j - 1]);
        }
    }
}

/// A value that was read has its keys in order, and cost the same for each value in it.
pub proof fn lemma_read_value(tokens: Seq<TokenModel>, at: int, budget: int)
    ensures
        match read_value(tokens, at, budget) {
            Read::Done(tree, _, left) => in_order(tree) && left == budget - VALUE_COST
                * value_count(tree) && 0 <= left,
            Read::Failed(_) => true,
        },
    decreases tokens.len() - at, 0int,
{
    if 0 <= at < tokens.len() && budget >= VALUE_COST {
        match tokens[at] {
            TokenModel::List => {
                lemma_read_items(tokens, at + 1, budget - VALUE_COST, seq![]);
            },
            TokenModel::Dict => {
                lemma_read_pairs(tokens, at + 1, budget - VALUE_COST, seq![]);
            },
            _ => {},
        }
    }
}

proof fn lemma_read_items(tokens: Seq<TokenModel>, at: int, budget: int, items: Seq<Tree>)
    requires
        0 <= budget,
        forall|i: int| 0 <= i < items.len() ==> in_order(#[trigger] items[i]),
    ensures
        match read_items(tokens, at, budget, items) {
            Read::Done(tree, _, left) => {
                &&& tree is List
                &&& in_order(tree)
                &&& left == budget - VALUE_COST * (value_count(tree) - 1 - item_count(items))
                &&& 0 <= left
            },
            Read::Failed(_) => true,
        },
    decreases tokens.len() - at, 1int,
{
    if !(0 <= at < tokens.len() && tokens[at] is End) {
        lemma_read_value(tokens, at, budget);
        match read_value(tokens, at, budget) {
            Read::Done(item, behind, left) => {
                if at < behind <= tokens.len() {
                    let more = items.push(item);
                    assert(more.drop_last() =~= items);
                    lemma_read_items(tokens, behind, left, more);
                }
            },
            Read::Failed(_) => {},
        }
    }
}

proof fn lemma_read_pairs(
    tokens: Seq<TokenModel>,
    at: int,
    budget: int,
    pairs: Seq<(Seq<u8>, Tree)>,
)
    requires
        0 <= budget,
        keys_ascend(pairs),
        forall|i: int| 0 <= i < pairs.len() ==> in_order((#[trigger] pairs[i]).1),
    ensures
        match read_pairs(tokens, at, budget, pairs) {
            Read::Done(tree, _, left) => {
                &&& tree is Dict
                &&& in_order(tree)
                &&& left == budget - VALUE_COST * (value_count(tree) - 1 - pair_count(pairs))
                &&& 0 <= left
            },
            Read::Failed(_) => true,
        },
    decreases tokens.len() - at, 1int,
{
    if 0 <= at < tokens.len() {
        if let TokenModel::Bytes(key) = tokens[at] {
            lemma_read_value(tokens, at + 1, budget);
            match read_value(tokens, at + 1, budget) {
                Read::Done(value, behind, left) => {
                    let slot = key_slot(pairs, key);
                    if !(slot > 0 && pairs[slot - 1].0 == key) && at < behind <= tokens.len() {
                        let more = pairs.insert(slot, (key, value));
                        lemma_slot(pairs, key);
                        lemma_keys_insert(pairs, key, value);
                        lemma_pair_insert(pairs, slot, (key, value));
                        assert forall|i: int| 0 <= i < more.len() implies in_order(
                            (#[trigger] more[i]).1,
                        ) by {
                            if i < slot {
                                assert(more[i] == pairs[i]);
                            } else if i > slot {
                                assert(more[i] == pairs[i - 1]);
                            }
                        }
                        lemma_read_pairs(tokens, behind, left, more);
                    }
                },
                Read::Failed(_) => {},
            }
        }
    }
}

/// Whole pieces and a rest fill as many pieces as both apart.
proof fn lemma_pieces_add(whole: int, rest: int, piece: int)
    requires
        0 < piece,
        0 <= whole,
        0 <= rest,
    ensures
        pieces_for(piece * whole + rest, piece) == whole + pieces_for(rest, piece),
{
    vstd::arithmetic::div_mod::lemma_mod_multiples_vanish(whole, rest, piece);
    vstd::arithmetic::div_mod::lemma_div_multiples_vanish_fancy(whole, rest % piece, piece);
    vstd::arithmetic::div_mod::lemma_fundamental_div_mod(rest, piece);
    let q = rest / piece;
    let r = rest % piece;
    assert(piece * whole + rest == piece * (whole + q) + r) by (nonlinear_arith)
        requires
            rest == piece * q + r,
    ;
    assert(0 <= r < piece);
    vstd::arithmetic::div_mod::lemma_fundamental_div_mod_converse(
        piece * whole + rest,
        piece,
        whole + q,
        r,
    );
}

/// Files that each start a piece take as many pieces as their space.
proof fn lemma_aligned_pieces(files: Seq<FileModel>, piece: int)
    requires
        0 < piece,
        sizes_valid(files),
    ensures
        pieces_for(aligned_space(files, piece), piece) == aligned_pieces(files, piece),
        0 <= aligned_space(files, piece),
    decreases files.len(),
{
    if files.len() > 0 {
        let front = files.drop_last();
        assert forall|i: int| 0 <= i < front.len() implies 0 <= (#[trigger] front[i]).length by {
            assert(front[i] == files[i]);
        }
        assert(0 <= files[files.len() - 1].length);
        lemma_aligned_pieces(front, piece);
        lemma_boundary(aligned_space(front, piece), piece);
        lemma_pieces_add(
            pieces_for(aligned_space(front, piece), piece),
            files.last().length,
            piece,
        );
        if files.last().length == 0 {
            assert(pieces_for(0, piece) == 0) by {
                vstd::arithmetic::div_mod::lemma_div_basics(piece);
                vstd::arithmetic::div_mod::lemma_small_mod(0, piece as nat);
            }
        }
    } else {
        assert(pieces_for(0, piece) == 0) by {
            vstd::arithmetic::div_mod::lemma_div_basics(piece);
            vstd::arithmetic::div_mod::lemma_small_mod(0, piece as nat);
        }
    }
}

/// A valid info dictionary adds up: content and padding fit in the piece space, and fill it where
/// files share pieces; the pieces cover the space, and no piece is left over. No file stands in the
/// way of another, no link leads nowhere, and trees are hashed over pieces of a fit length.
pub proof fn lemma_valid_info(pairs: Pairs, format: Format, budget: int, model: InfoModel)
    requires
        describe_info(pairs, format, budget) == Ok::<InfoModel, Reason>(model),
        sizes_valid(model.files),
    ensures
        0 < model.piece_length,
        0 <= model.total_length,
        0 <= model.padding_length,
        0 <= model.file_count <= model.files.len(),
        model.total_length + model.padding_length <= model.piece_space_length <= u64::MAX,
        !(format is V2) ==> model.total_length + model.padding_length == model.piece_space_length,
        model.piece_count == pieces_for(model.piece_space_length, model.piece_length),
        model.piece_space_length <= model.piece_length * model.piece_count
            < model.piece_space_length + model.piece_length,
        format is V2 || format is Hybrid ==> model.piece_length >= 16384 && is_pow2(
            model.piece_length,
        ),
        !in_conflict(content_paths(model.files)),
        !has_dangling_link(model.files),
{
    let piece = model.piece_length;
    lemma_sums_bounded(model.files, piece, format is V2);
    lemma_aligned_pieces(model.files, piece);
    lemma_boundary(model.piece_space_length, piece);
}

} // verus!
