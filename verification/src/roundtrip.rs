//! Reading back what was written: a document that spells a value is read as that value, skipped as a
//! whole, and searched for the keys that it holds.

use crate::bencode::{
    all_digits, dictionary_end, digits_value, key_position, key_slot, number_value, read_document,
    read_items, read_pairs, read_value, value_span, Read, TokenModel, Tree, VALUE_COST,
};
use crate::bounded::{decimal_text, lemma_decimal_read_back};
use crate::metainfo::identity::names_v2;
use crate::metainfo::laws::{in_order, item_count, keys_ascend, pair_count, value_count};
use crate::order::{bytes_before, lemma_bytes_irreflexive, lemma_bytes_transitive};
use vstd::prelude::*;

verus! {

/// The text of a number: its digits, behind a minus sign where it is below zero.
pub open spec fn number_text(n: int) -> Seq<char> {
    if n < 0 {
        seq!['-'] + decimal_text(-n)
    } else {
        decimal_text(n)
    }
}

/// Every number is read back from its text.
pub proof fn lemma_number_read_back(n: int)
    ensures
        number_value(number_text(n)) == Some(n),
{
    if n < 0 {
        lemma_decimal_read_back(-n);
        let text = number_text(n);
        assert(text.drop_first() =~= decimal_text(-n));
    } else {
        lemma_decimal_read_back(n);
    }
}

/// A text is a number exactly where it is made of digits behind at most one sign.
pub proof fn lemma_number_form(text: Seq<char>)
    ensures
        number_value(text) is Some <==> ({
            ||| text.len() > 0 && forall|i: int|
                0 <= i < text.len() ==> '0' <= #[trigger] text[i] <= '9'
            ||| text.len() > 1 && (text[0] == '+' || text[0] == '-') && forall|i: int|
                1 <= i < text.len() ==> '0' <= #[trigger] text[i] <= '9'
        }),
        text.len() > 0 && text[0] == '-' && number_value(text) is Some ==> number_value(text)->0
            <= 0,
{
    if text.len() > 0 {
        let signed = text[0] == '-' || text[0] == '+';
        let digits = if signed {
            text.drop_first()
        } else {
            text
        };
        let from: int = if signed {
            1
        } else {
            0
        };
        if all_digits(digits) {
            lemma_digits_positive(digits);
            assert forall|i: int| from <= i < text.len() implies '0' <= #[trigger] text[i] <= '9' by {
                assert(digits[i - from] == text[i]);
            }
        }
        if forall|i: int| from <= i < text.len() ==> '0' <= #[trigger] text[i] <= '9' {
            assert forall|i: int| 0 <= i < digits.len() implies '0' as int
                <= #[trigger] digits[i] as int <= '9' as int by {
                assert(digits[i] == text[i + from]);
            }
        }
        if signed {
            assert(!('0' <= text[0] <= '9'));
        }
    }
}

proof fn lemma_digits_positive(digits: Seq<char>)
    requires
        all_digits(digits),
    ensures
        digits_value(digits) >= 0,
    decreases digits.len(),
{
    if digits.len() > 0 {
        let front = digits.drop_last();
        assert forall|i: int| 0 <= i < front.len() implies '0' as int <= #[trigger] front[i] as int
            <= '9' as int by {
            assert(front[i] == digits[i]);
        }
        lemma_digits_positive(front);
        assert('0' as int <= digits[digits.len() - 1] as int);
    }
}

/// The tokens that spell a value.
pub open spec fn spelled(tree: Tree) -> Seq<TokenModel>
    decreases tree,
{
    match tree {
        Tree::Bytes(bytes) => seq![TokenModel::Bytes(bytes)],
        Tree::Integer(n) => seq![TokenModel::Number(number_text(n))],
        Tree::List(items) => seq![TokenModel::List] + spelled_items(items) + seq![TokenModel::End],
        Tree::Dict(pairs) => seq![TokenModel::Dict] + spelled_pairs(pairs) + seq![TokenModel::End],
    }
}

/// The tokens that spell the items of a list.
pub open spec fn spelled_items(items: Seq<Tree>) -> Seq<TokenModel>
    decreases items,
{
    if items.len() == 0 {
        seq![]
    } else {
        spelled_items(items.drop_last()) + spelled(items.last())
    }
}

/// The tokens that spell the pairs of a dictionary.
pub open spec fn spelled_pairs(pairs: Seq<(Seq<u8>, Tree)>) -> Seq<TokenModel>
    decreases pairs,
{
    if pairs.len() == 0 {
        seq![]
    } else {
        spelled_pairs(pairs.drop_last()) + seq![TokenModel::Bytes(pairs.last().0)] + spelled(
            pairs.last().1,
        )
    }
}

/// Whether all numbers in a value can be held.
pub open spec fn numbers_fit(tree: Tree) -> bool
    decreases tree,
{
    match tree {
        Tree::Bytes(_) => true,
        Tree::Integer(n) => i64::MIN <= n <= i64::MAX,
        Tree::List(items) => forall|i: int|
            0 <= i < items.len() ==> numbers_fit(#[trigger] items[i]),
        Tree::Dict(pairs) => forall|i: int|
            0 <= i < pairs.len() ==> numbers_fit((#[trigger] pairs[i]).1),
    }
}

/// Whether some tokens stand in a stream from `at` on.
pub open spec fn stands(tokens: Seq<TokenModel>, at: int, part: Seq<TokenModel>) -> bool {
    &&& 0 <= at
    &&& at + part.len() <= tokens.len()
    &&& forall|k: int| 0 <= k < part.len() ==> tokens[at + k] == #[trigger] part[k]
}

proof fn lemma_stands_split(tokens: Seq<TokenModel>, at: int, a: Seq<TokenModel>, b: Seq<TokenModel>)
    requires
        stands(tokens, at, a + b),
    ensures
        stands(tokens, at, a),
        stands(tokens, at + a.len(), b),
{
    let whole = a + b;
    assert forall|k: int| 0 <= k < a.len() implies tokens[at + k] == #[trigger] a[k] by {
        assert(whole[k] == a[k]);
    }
    assert forall|k: int| 0 <= k < b.len() implies tokens[at + a.len() + k] == #[trigger] b[k] by {
        assert(whole[a.len() + k] == b[k]);
    }
}

proof fn lemma_spelled_len(tree: Tree)
    ensures
        spelled(tree).len() > 0,
        !(spelled(tree)[0] is End),
        !(spelled(tree)[0] is Invalid),
    decreases tree,
{
}

proof fn lemma_counts(tree: Tree)
    ensures
        value_count(tree) >= 1,
    decreases tree,
{
    match tree {
        Tree::List(items) => lemma_item_counts(items),
        Tree::Dict(pairs) => lemma_pair_counts(pairs),
        _ => {},
    }
}

proof fn lemma_item_counts(items: Seq<Tree>)
    ensures
        item_count(items) >= 0,
    decreases items,
{
    if items.len() > 0 {
        lemma_item_counts(items.drop_last());
        assert(decreases_to!(items => items[items.len() - 1]));
        lemma_counts(items.last());
    }
}

proof fn lemma_pair_counts(pairs: Seq<(Seq<u8>, Tree)>)
    ensures
        pair_count(pairs) >= 0,
    decreases pairs,
{
    if pairs.len() > 0 {
        lemma_pair_counts(pairs.drop_last());
        assert(decreases_to!(pairs => pairs[pairs.len() - 1]));
        lemma_counts(pairs.last().1);
    }
}

/// A value that stands in a stream is read as it is, up to its last token and no further, and costs
/// the same for each value in it.
pub proof fn lemma_read_back(tokens: Seq<TokenModel>, at: int, budget: int, tree: Tree)
    requires
        stands(tokens, at, spelled(tree)),
        in_order(tree),
        numbers_fit(tree),
        VALUE_COST * value_count(tree) <= budget,
    ensures
        read_value(tokens, at, budget) == Read::Done(
            tree,
            at + spelled(tree).len(),
            budget - VALUE_COST * value_count(tree),
        ),
    decreases tree, 1int, 0int,
{
    let part = spelled(tree);
    lemma_spelled_len(tree);
    lemma_counts(tree);
    assert(tokens[at + 0] == part[0]);
    match tree {
        Tree::Bytes(_) => {},
        Tree::Integer(n) => {
            lemma_number_read_back(n);
        },
        Tree::List(items) => {
            let body = spelled_items(items);
            assert(part =~= seq![TokenModel::List] + (body + seq![TokenModel::End]));
            lemma_stands_split(tokens, at, seq![TokenModel::List], body + seq![TokenModel::End]);
            lemma_stands_split(tokens, at + 1, body, seq![TokenModel::End]);
            assert(items.take(0) =~= seq![]);
            assert(tokens[at + 1 + body.len() + 0] == seq![TokenModel::End][0]);
            lemma_read_items_back(tokens, at + 1, budget - VALUE_COST, items, 0);
        },
        Tree::Dict(pairs) => {
            let body = spelled_pairs(pairs);
            assert(part =~= seq![TokenModel::Dict] + (body + seq![TokenModel::End]));
            lemma_stands_split(tokens, at, seq![TokenModel::Dict], body + seq![TokenModel::End]);
            lemma_stands_split(tokens, at + 1, body, seq![TokenModel::End]);
            assert(pairs.take(0) =~= seq![]);
            assert(tokens[at + 1 + body.len() + 0] == seq![TokenModel::End][0]);
            lemma_read_pairs_back(tokens, at + 1, budget - VALUE_COST, pairs, 0);
        },
    }
}

/// The tokens of the first items, of the next one, and of those behind it.
proof fn lemma_items_at(tokens: Seq<TokenModel>, at: int, items: Seq<Tree>, n: int)
    requires
        stands(tokens, at, spelled_items(items)),
        0 <= n < items.len(),
    ensures
        stands(tokens, at + spelled_items(items.take(n)).len(), spelled(items[n])),
        spelled_items(items.take(n + 1)).len() == spelled_items(items.take(n)).len() + spelled(
            items[n],
        ).len(),
        spelled_items(items.take(n + 1)).len() <= spelled_items(items).len(),
    decreases items.len(),
{
    let front = items.drop_last();
    assert(items.take(n + 1).drop_last() =~= items.take(n));
    assert(items.take(n + 1).last() == items[n]);
    lemma_stands_split(tokens, at, spelled_items(front), spelled(items.last()));
    if n == items.len() - 1 {
        assert(items.take(n) =~= front);
        assert(items.take(n + 1) =~= items);
    } else {
        lemma_items_at(tokens, at, front, n);
        assert(front.take(n) =~= items.take(n));
        assert(front.take(n + 1) =~= items.take(n + 1));
        assert(front[n] == items[n]);
    }
}

/// Reading goes on behind the first `n` items.
proof fn lemma_read_items_back(
    tokens: Seq<TokenModel>,
    start: int,
    budget: int,
    items: Seq<Tree>,
    n: int,
)
    requires
        stands(tokens, start, spelled_items(items)),
        start + spelled_items(items).len() < tokens.len(),
        tokens[start + spelled_items(items).len()] is End,
        0 <= n <= items.len(),
        forall|i: int| 0 <= i < items.len() ==> in_order(#[trigger] items[i]),
        forall|i: int| 0 <= i < items.len() ==> numbers_fit(#[trigger] items[i]),
        VALUE_COST * (item_count(items) - item_count(items.take(n))) <= budget,
    ensures
        read_items(tokens, start + spelled_items(items.take(n)).len(), budget, items.take(n))
            == Read::Done(
            Tree::List(items),
            start + spelled_items(items).len() + 1,
            budget - VALUE_COST * (item_count(items) - item_count(items.take(n))),
        ),
    decreases items, 0int, items.len() - n,
{
    let at = start + spelled_items(items.take(n)).len();
    if n == items.len() {
        assert(items.take(n) =~= items);
    } else {
        lemma_items_at(tokens, start, items, n);
        let item = items[n];
        assert(in_order(items[n]) && numbers_fit(items[n]));
        lemma_spelled_len(item);
        assert(tokens[at + 0] == spelled(item)[0]);
        assert(items.take(n + 1).drop_last() =~= items.take(n));
        assert(items.take(n + 1).last() == item);
        lemma_count_rest(items, n + 1);
        lemma_counts(item);
        assert(decreases_to!(items => items[n]));
        lemma_read_back(tokens, at, budget, item);
        assert(items.take(n).push(item) =~= items.take(n + 1));
        lemma_read_items_back(
            tokens,
            start,
            budget - VALUE_COST * value_count(item),
            items,
            n + 1,
        );
    }
}

proof fn lemma_count_rest(items: Seq<Tree>, n: int)
    requires
        0 <= n <= items.len(),
    ensures
        item_count(items.take(n)) <= item_count(items),
    decreases items.len(),
{
    if n == items.len() {
        assert(items.take(n) =~= items);
    } else {
        assert(items.drop_last().take(n) =~= items.take(n));
        lemma_count_rest(items.drop_last(), n);
        lemma_counts(items.last());
    }
}

proof fn lemma_pair_rest(pairs: Seq<(Seq<u8>, Tree)>, n: int)
    requires
        0 <= n <= pairs.len(),
    ensures
        pair_count(pairs.take(n)) <= pair_count(pairs),
    decreases pairs.len(),
{
    if n == pairs.len() {
        assert(pairs.take(n) =~= pairs);
    } else {
        assert(pairs.drop_last().take(n) =~= pairs.take(n));
        lemma_pair_rest(pairs.drop_last(), n);
        lemma_counts(pairs.last().1);
    }
}

/// The tokens of the first pairs, of the next one, and of those behind it.
proof fn lemma_pairs_at(tokens: Seq<TokenModel>, at: int, pairs: Seq<(Seq<u8>, Tree)>, n: int)
    requires
        stands(tokens, at, spelled_pairs(pairs)),
        0 <= n < pairs.len(),
    ensures
        ({
            let here = at + spelled_pairs(pairs.take(n)).len();
            &&& here < tokens.len()
            &&& tokens[here] == TokenModel::Bytes(pairs[n].0)
            &&& stands(tokens, here + 1, spelled(pairs[n].1))
            &&& spelled_pairs(pairs.take(n + 1)).len() == spelled_pairs(pairs.take(n)).len() + 1
                + spelled(pairs[n].1).len()
            &&& spelled_pairs(pairs.take(n + 1)).len() <= spelled_pairs(pairs).len()
        }),
    decreases pairs.len(),
{
    let front = pairs.drop_last();
    let key = seq![TokenModel::Bytes(pairs.last().0)];
    assert(pairs.take(n + 1).drop_last() =~= pairs.take(n));
    assert(pairs.take(n + 1).last() == pairs[n]);
    assert(spelled_pairs(pairs) =~= spelled_pairs(front) + (key + spelled(pairs.last().1)));
    lemma_stands_split(tokens, at, spelled_pairs(front), key + spelled(pairs.last().1));
    lemma_stands_split(tokens, at + spelled_pairs(front).len(), key, spelled(pairs.last().1));
    if n == pairs.len() - 1 {
        assert(pairs.take(n) =~= front);
        assert(pairs.take(n + 1) =~= pairs);
        assert(tokens[at + spelled_pairs(front).len() + 0] == key[0]);
    } else {
        lemma_pairs_at(tokens, at, front, n);
        assert(front.take(n) =~= pairs.take(n));
        assert(front.take(n + 1) =~= pairs.take(n + 1));
        assert(front[n] == pairs[n]);
    }
}

/// Reading goes on behind the first `n` pairs.
proof fn lemma_read_pairs_back(
    tokens: Seq<TokenModel>,
    start: int,
    budget: int,
    pairs: Seq<(Seq<u8>, Tree)>,
    n: int,
)
    requires
        stands(tokens, start, spelled_pairs(pairs)),
        start + spelled_pairs(pairs).len() < tokens.len(),
        tokens[start + spelled_pairs(pairs).len()] is End,
        0 <= n <= pairs.len(),
        keys_ascend(pairs),
        forall|i: int| 0 <= i < pairs.len() ==> in_order((#[trigger] pairs[i]).1),
        forall|i: int| 0 <= i < pairs.len() ==> numbers_fit((#[trigger] pairs[i]).1),
        VALUE_COST * (pair_count(pairs) - pair_count(pairs.take(n))) <= budget,
    ensures
        read_pairs(tokens, start + spelled_pairs(pairs.take(n)).len(), budget, pairs.take(n))
            == Read::Done(
            Tree::Dict(pairs),
            start + spelled_pairs(pairs).len() + 1,
            budget - VALUE_COST * (pair_count(pairs) - pair_count(pairs.take(n))),
        ),
    decreases pairs, 0int, pairs.len() - n,
{
    let at = start + spelled_pairs(pairs.take(n)).len();
    if n == pairs.len() {
        assert(pairs.take(n) =~= pairs);
    } else {
        lemma_pairs_at(tokens, start, pairs, n);
        let pair = pairs[n];
        let known = pairs.take(n);
        assert(in_order(pairs[n].1) && numbers_fit(pairs[n].1));
        lemma_spelled_len(pair.1);
        assert(pairs.take(n + 1).drop_last() =~= known);
        assert(pairs.take(n + 1).last() == pair);
        lemma_pair_rest(pairs, n + 1);
        lemma_counts(pair.1);
        assert(decreases_to!(pairs => pairs[n]));
        lemma_read_back(tokens, at + 1, budget, pair.1);
        assert(key_slot(known, pair.0) == n && (n > 0 ==> known[n - 1].0 != pair.0)) by {
            if n > 0 {
                assert(known[n - 1] == pairs[n - 1]);
                assert(bytes_before(pairs[n - 1].0, pairs[n].0));
                lemma_bytes_irreflexive(pair.0);
                if bytes_before(pair.0, known.last().0) {
                    lemma_bytes_transitive(pair.0, known.last().0, pair.0);
                }
            }
        }
        assert(known.insert(n, pair) =~= pairs.take(n + 1));
        lemma_read_pairs_back(
            tokens,
            start,
            budget - VALUE_COST * value_count(pair.1),
            pairs,
            n + 1,
        );
    }
}

/// A document that spells one value, and nothing else, is read as that value.
pub proof fn lemma_document_read_back(budget: int, tree: Tree)
    requires
        in_order(tree),
        numbers_fit(tree),
        VALUE_COST * value_count(tree) <= budget,
    ensures
        read_document(spelled(tree), budget) == Read::Done(
            tree,
            spelled(tree).len() as int,
            budget - VALUE_COST * value_count(tree),
        ),
{
    lemma_spelled_len(tree);
    lemma_read_back(spelled(tree), 0, budget, tree);
}

/// What stands behind a value is never read as a part of it: a document with more behind its value is
/// refused.
pub proof fn lemma_trailing_refused(budget: int, tree: Tree, more: Seq<TokenModel>)
    requires
        in_order(tree),
        numbers_fit(tree),
        VALUE_COST * value_count(tree) <= budget,
        more.len() > 0,
    ensures
        read_document(spelled(tree) + more, budget) is Failed,
{
    let tokens = spelled(tree) + more;
    lemma_spelled_len(tree);
    assert forall|k: int| 0 <= k < spelled(tree).len() implies tokens[0 + k] == #[trigger] spelled(
        tree,
    )[k] by {}
    lemma_read_back(tokens, 0, budget, tree);
}

/// A value that stands in a stream is skipped as a whole, whatever is open around it.
pub proof fn lemma_skipped(tokens: Seq<TokenModel>, at: int, open: nat, tree: Tree)
    requires
        stands(tokens, at, spelled(tree)),
    ensures
        open == 0 ==> value_span(tokens, at, open) == Some(at + spelled(tree).len()),
        open > 0 ==> value_span(tokens, at, open) == value_span(
            tokens,
            at + spelled(tree).len(),
            open,
        ),
    decreases tree, 1int, 0int,
{
    let part = spelled(tree);
    lemma_spelled_len(tree);
    assert(tokens[at + 0] == part[0]);
    match tree {
        Tree::List(items) => {
            let body = spelled_items(items);
            assert(part =~= seq![TokenModel::List] + (body + seq![TokenModel::End]));
            lemma_stands_split(tokens, at, seq![TokenModel::List], body + seq![TokenModel::End]);
            lemma_stands_split(tokens, at + 1, body, seq![TokenModel::End]);
            assert(tokens[at + 1 + body.len() + 0] == seq![TokenModel::End][0]);
            assert(items.take(0) =~= seq![]);
            lemma_items_skipped(tokens, at + 1, open + 1, items, 0);
        },
        Tree::Dict(pairs) => {
            let body = spelled_pairs(pairs);
            assert(part =~= seq![TokenModel::Dict] + (body + seq![TokenModel::End]));
            lemma_stands_split(tokens, at, seq![TokenModel::Dict], body + seq![TokenModel::End]);
            lemma_stands_split(tokens, at + 1, body, seq![TokenModel::End]);
            assert(tokens[at + 1 + body.len() + 0] == seq![TokenModel::End][0]);
            assert(pairs.take(0) =~= seq![]);
            lemma_pairs_skipped(tokens, at + 1, open + 1, pairs, 0);
        },
        _ => {},
    }
}

proof fn lemma_items_skipped(
    tokens: Seq<TokenModel>,
    start: int,
    open: nat,
    items: Seq<Tree>,
    n: int,
)
    requires
        open > 0,
        stands(tokens, start, spelled_items(items)),
        0 <= n <= items.len(),
    ensures
        value_span(tokens, start + spelled_items(items.take(n)).len(), open) == value_span(
            tokens,
            start + spelled_items(items).len(),
            open,
        ),
    decreases items, 0int, items.len() - n,
{
    if n == items.len() {
        assert(items.take(n) =~= items);
    } else {
        lemma_items_at(tokens, start, items, n);
        assert(decreases_to!(items => items[n]));
        lemma_skipped(tokens, start + spelled_items(items.take(n)).len(), open, items[n]);
        lemma_items_skipped(tokens, start, open, items, n + 1);
    }
}

proof fn lemma_pairs_skipped(
    tokens: Seq<TokenModel>,
    start: int,
    open: nat,
    pairs: Seq<(Seq<u8>, Tree)>,
    n: int,
)
    requires
        open > 0,
        stands(tokens, start, spelled_pairs(pairs)),
        0 <= n <= pairs.len(),
    ensures
        value_span(tokens, start + spelled_pairs(pairs.take(n)).len(), open) == value_span(
            tokens,
            start + spelled_pairs(pairs).len(),
            open,
        ),
    decreases pairs, 0int, pairs.len() - n,
{
    if n == pairs.len() {
        assert(pairs.take(n) =~= pairs);
    } else {
        lemma_pairs_at(tokens, start, pairs, n);
        assert(decreases_to!(pairs => pairs[n]));
        lemma_skipped(tokens, start + spelled_pairs(pairs.take(n)).len() + 1, open, pairs[n].1);
        lemma_pairs_skipped(tokens, start, open, pairs, n + 1);
    }
}

/// A key is found in a dictionary that stands in a stream: the value of the first pair with that key
/// stands at the position that is given, and a key that no pair has is not found.
pub proof fn lemma_key_found(tokens: Seq<TokenModel>, at: int, pairs: Seq<(Seq<u8>, Tree)>, key: Seq<u8>, n: int)
    requires
        stands(tokens, at, spelled(Tree::Dict(pairs))),
        0 <= n <= pairs.len(),
        forall|i: int| 0 <= i < n ==> (#[trigger] pairs[i]).0 != key,
        n < pairs.len() ==> pairs[n].0 == key,
    ensures
        n < pairs.len() ==> key_position(tokens, at + 1, key) is Some && stands(
            tokens,
            key_position(tokens, at + 1, key)->0,
            spelled(pairs[n].1),
        ),
        n == pairs.len() ==> key_position(tokens, at + 1, key) is None,
{
    let body = spelled_pairs(pairs);
    let part = spelled(Tree::Dict(pairs));
    assert(part =~= seq![TokenModel::Dict] + (body + seq![TokenModel::End]));
    lemma_stands_split(tokens, at, seq![TokenModel::Dict], body + seq![TokenModel::End]);
    lemma_stands_split(tokens, at + 1, body, seq![TokenModel::End]);
    assert(tokens[at + 1 + body.len() + 0] == seq![TokenModel::End][0]);
    assert(pairs.take(0) =~= seq![]);
    lemma_key_from(tokens, at + 1, pairs, key, 0, n);
}

proof fn lemma_key_from(
    tokens: Seq<TokenModel>,
    start: int,
    pairs: Seq<(Seq<u8>, Tree)>,
    key: Seq<u8>,
    from: int,
    n: int,
)
    requires
        stands(tokens, start, spelled_pairs(pairs)),
        start + spelled_pairs(pairs).len() < tokens.len(),
        tokens[start + spelled_pairs(pairs).len()] is End,
        0 <= from <= n <= pairs.len(),
        forall|i: int| 0 <= i < n ==> (#[trigger] pairs[i]).0 != key,
        n < pairs.len() ==> pairs[n].0 == key,
    ensures
        ({
            let found = key_position(tokens, start + spelled_pairs(pairs.take(from)).len(), key);
            &&& n < pairs.len() ==> found is Some && stands(tokens, found->0, spelled(pairs[n].1))
            &&& n == pairs.len() ==> found is None
        }),
    decreases n - from,
{
    if from < pairs.len() {
        lemma_pairs_at(tokens, start, pairs, from);
        if from < n {
            assert(pairs[from].0 != key);
            let here = start + spelled_pairs(pairs.take(from)).len();
            lemma_skipped(tokens, here + 1, 0, pairs[from].1);
            lemma_key_from(tokens, start, pairs, key, from + 1, n);
        }
    } else {
        assert(pairs.take(from) =~= pairs);
    }
}

/// A written dictionary names the second version exactly where its `meta version` is the number two.
pub proof fn lemma_version_named(pairs: Seq<(Seq<u8>, Tree)>, n: int)
    requires
        0 <= n <= pairs.len(),
        forall|i: int|
            0 <= i < n ==> (#[trigger] pairs[i]).0 != vstd::utf8::encode_utf8("meta version"@),
        n < pairs.len() ==> pairs[n].0 == vstd::utf8::encode_utf8("meta version"@),
    ensures
        n < pairs.len() && pairs[n].1 == Tree::Integer(2) ==> names_v2(spelled(Tree::Dict(pairs))),
        n < pairs.len() && pairs[n].1 != Tree::Integer(2) ==> !names_v2(spelled(Tree::Dict(pairs))),
        n == pairs.len() ==> !names_v2(spelled(Tree::Dict(pairs))),
{
    let tokens = spelled(Tree::Dict(pairs));
    let key = vstd::utf8::encode_utf8("meta version"@);
    assert(stands(tokens, 0, tokens));
    lemma_key_found(tokens, 0, pairs, key, n);
    assert(tokens[0] is Dict);
    assert(decimal_text(2) =~= "2"@) by {
        reveal_strlit("2");
    }
    if n < pairs.len() {
        let at = key_position(tokens, 1, key)->0;
        let part = spelled(pairs[n].1);
        assert(part.len() > 0);
        assert(tokens[at + 0] == part[0]);
        if let Tree::Integer(value) = pairs[n].1 {
            if number_text(value) == "2"@ {
                lemma_number_read_back(value);
                lemma_number_read_back(2);
            }
        }
    }
}

/// A written dictionary ends with its last token, and nothing but a dictionary is one.
pub proof fn lemma_dictionary_end(tree: Tree, more: Seq<TokenModel>)
    ensures
        tree is Dict ==> dictionary_end(spelled(tree) + more) == Some(spelled(tree).len() as int),
        !(tree is Dict) ==> dictionary_end(spelled(tree) + more) is None,
        dictionary_end(Seq::empty()) is None,
{
    let tokens = spelled(tree) + more;
    assert(stands(tokens, 0, spelled(tree))) by {
        assert forall|k: int| 0 <= k < spelled(tree).len() implies tokens[0 + k]
            == #[trigger] spelled(tree)[k] by {}
    }
    lemma_skipped(tokens, 0, 0, tree);
    assert(spelled(tree).len() > 0);
    assert(tokens[0] == spelled(tree)[0]);
}

} // verus!
