//! Bencode: the tokens that the decoder reads, and the value that they build under a budget.

use crate::order::{bytes_equal, bytes_less};
use crate::reason::Reason;
use vstd::prelude::*;

verus! {

/// The budget that one value takes from the semantic capacity.
pub const VALUE_COST: usize = 96;

/// A token of a bencode document. `Invalid` stands where the decoder refuses the rest.
#[derive(Clone, Copy, Debug)]
pub enum Token<'a> {
    List,
    Dict,
    Bytes(&'a [u8]),
    Number(&'a str),
    End,
    Invalid,
}

/// The model of a token.
pub enum TokenModel {
    List,
    Dict,
    Bytes(Seq<u8>),
    Number(Seq<char>),
    End,
    Invalid,
}

impl<'a> View for Token<'a> {
    type V = TokenModel;

    open spec fn view(&self) -> TokenModel {
        match *self {
            Token::List => TokenModel::List,
            Token::Dict => TokenModel::Dict,
            Token::Bytes(bytes) => TokenModel::Bytes(bytes@),
            Token::Number(text) => TokenModel::Number(text@),
            Token::End => TokenModel::End,
            Token::Invalid => TokenModel::Invalid,
        }
    }
}

/// The models of a list of tokens.
pub open spec fn token_models(tokens: Seq<Token>) -> Seq<TokenModel> {
    tokens.map_values(|token: Token| token@)
}

/// The tokens that `bendy::decoding::Decoder::tokens` yields for a document when at most `depth`
/// containers may be open at once, the error that ends the stream as `Invalid`.
pub uninterp spec fn decoder_tokens(bytes: Seq<u8>, depth: nat) -> Seq<TokenModel>;

/// `bendy::decoding::Decoder::tokens` after `with_max_depth`: the stream of tokens depends on the
/// document and the depth alone. Each token is taken over as it is, and an error becomes
/// `Token::Invalid`.
#[verifier::external_body]
pub(crate) fn read_tokens(bytes: &[u8], depth: usize) -> (tokens: Vec<Token<'_>>)
    ensures
        token_models(tokens@) == decoder_tokens(bytes@, depth as nat),
{
    bendy::decoding::Decoder::new(bytes).with_max_depth(depth).tokens().map(|token| match token {
        Ok(bendy::state_tracker::Token::List) => Token::List,
        Ok(bendy::state_tracker::Token::Dict) => Token::Dict,
        Ok(bendy::state_tracker::Token::String(bytes)) => Token::Bytes(bytes),
        Ok(bendy::state_tracker::Token::Num(text)) => Token::Number(text),
        Ok(bendy::state_tracker::Token::End) => Token::End,
        Err(_) => Token::Invalid,
    }).collect()
}

/// A decoded value. The pairs of a dictionary stand in ascending order of their keys.
#[derive(Debug)]
pub enum Value<'a> {
    Bytes(&'a [u8]),
    Integer(i64),
    List(Vec<Value<'a>>),
    Dict(Vec<Entry<'a>>),
}

/// A pair of a dictionary.
#[derive(Debug)]
pub struct Entry<'a> {
    pub key: &'a [u8],
    pub value: Value<'a>,
}

/// The model of a value.
pub enum Tree {
    Bytes(Seq<u8>),
    Integer(int),
    List(Seq<Tree>),
    Dict(Seq<(Seq<u8>, Tree)>),
}

impl<'a> Value<'a> {
    /// The model of the value.
    pub open spec fn tree(self) -> Tree
        decreases self,
    {
        match self {
            Value::Bytes(bytes) => Tree::Bytes(bytes@),
            Value::Integer(n) => Tree::Integer(n as int),
            Value::List(items) => Tree::List(
                Seq::new(
                    items@.len(),
                    |i: int|
                        if 0 <= i < items@.len() {
                            items@[i].tree()
                        } else {
                            arbitrary()
                        },
                ),
            ),
            Value::Dict(entries) => Tree::Dict(
                Seq::new(
                    entries@.len(),
                    |i: int|
                        if 0 <= i < entries@.len() {
                            (entries@[i].key@, entries@[i].value.tree())
                        } else {
                            arbitrary()
                        },
                ),
            ),
        }
    }
}

/// The models of a list of values.
pub open spec fn item_trees(items: Seq<Value>) -> Seq<Tree> {
    Seq::new(items.len(), |i: int| items[i].tree())
}

/// The model of a dictionary's pairs.
pub open spec fn entry_trees(entries: Seq<Entry>) -> Seq<(Seq<u8>, Tree)> {
    Seq::new(entries.len(), |i: int| (entries[i].key@, entries[i].value.tree()))
}

/// The number that a run of decimal digits stands for.
pub open spec fn digits_value(digits: Seq<char>) -> int
    decreases digits.len(),
{
    if digits.len() == 0 {
        0
    } else {
        10 * digits_value(digits.drop_last()) + (digits.last() as int - '0' as int)
    }
}

/// Whether every character is a decimal digit.
pub open spec fn all_digits(digits: Seq<char>) -> bool {
    forall|i: int| 0 <= i < digits.len() ==> '0' as int <= #[trigger] digits[i] as int <= '9' as int
}

/// The number that a text of digits with an optional sign stands for.
pub open spec fn number_value(text: Seq<char>) -> Option<int> {
    if text.len() == 0 {
        None
    } else {
        let signed = text[0] == '-' || text[0] == '+';
        let digits = if signed {
            text.drop_first()
        } else {
            text
        };
        if digits.len() == 0 || !all_digits(digits) {
            None
        } else if text[0] == '-' {
            Some(-digits_value(digits))
        } else {
            Some(digits_value(digits))
        }
    }
}

/// The value of one decimal digit.
fn decimal_digit(c: char) -> (digit: Option<u64>)
    ensures
        digit is Some == ('0' as int <= c as int <= '9' as int),
        digit is Some ==> digit->0 == c as int - '0' as int,
{
    let code: u32 = c as u32;
    if 48 <= code && code <= 57 {
        Some((code - 48) as u64)
    } else {
        None
    }
}

/// Reads a number with an optional sign; `None` where the text is no number or leaves the range.
pub fn parse_number(text: &str) -> (number: Option<i64>)
    ensures
        number == (match number_value(text@) {
            Some(n) if i64::MIN <= n <= i64::MAX => Some(n as i64),
            _ => None,
        }),
{
    let mut negative = false;
    let mut signed = false;
    let mut first = true;
    let mut digits: bool = false;
    let mut magnitude: u64 = 0;
    let mut over = false;
    let ghost all = text@;
    for c in it: text.chars()
        invariant
            all == text@,
            it.seq() == all,
            first == (it.index() == 0),
            first ==> !signed && !negative,
            !first ==> signed == (all[0] == '-' || all[0] == '+'),
            !first ==> negative == (all[0] == '-'),
            ({
                let body = all.subrange(if signed { 1 } else { 0 }, it.index() as int);
                &&& all_digits(body)
                &&& digits == (body.len() > 0)
                &&& !over ==> magnitude == digits_value(body)
                &&& over ==> digits_value(body) > 9223372036854775808
            }),
    {
        let ghost i = it.index() as int;
        assert(c == all[i]);
        if first && (c == '-' || c == '+') {
            signed = true;
            negative = c == '-';
            assert(all.subrange(1, 1) =~= Seq::empty());
        } else {
            let ghost start: int = if signed { 1 } else { 0 };
            let ghost body = all.subrange(start, i);
            let ghost next = all.subrange(start, i + 1);
            assert(next.drop_last() =~= body);
            assert(next.last() == c);
            match decimal_digit(c) {
                None => {
                    proof {
                        let whole = if signed { all.drop_first() } else { all };
                        assert(whole[i - start] == c);
                    }
                    return None;
                },
                Some(digit) => {
                    assert forall|k: int| 0 <= k < next.len() implies '0' as int
                        <= #[trigger] next[k] as int <= '9' as int by {
                        if k < body.len() {
                            assert(next[k] == body[k]);
                        }
                    }
                    digits = true;
                    if !over {
                        if magnitude > 1844674407370955160u64 {
                            over = true;
                        } else {
                            magnitude = magnitude * 10 + digit;
                        }
                    }
                },
            }
        }
        first = false;
    }
    proof {
        let start: int = if signed { 1 } else { 0 };
        if all.len() > 0 {
            assert(all.subrange(start, all.len() as int) =~= (if signed { all.drop_first() } else { all }));
        }
    }
    if !digits || over {
        None
    } else if negative {
        if magnitude <= 9223372036854775807 {
            Some(-(magnitude as i64))
        } else if magnitude == 9223372036854775808 {
            Some(i64::MIN)
        } else {
            None
        }
    } else if magnitude <= 9223372036854775807 {
        Some(magnitude as i64)
    } else {
        None
    }
}

/// The outcome of reading a value: the value, the position behind it and the budget that is left.
pub enum Read {
    Done(Tree, int, int),
    Failed(Reason),
}

/// Where a key belongs among pairs in ascending order: behind the last pair that it does not
/// come before.
pub open spec fn key_slot(pairs: Seq<(Seq<u8>, Tree)>, key: Seq<u8>) -> int
    decreases pairs.len(),
{
    if pairs.len() > 0 && crate::order::bytes_before(key, pairs.last().0) {
        key_slot(pairs.drop_last(), key)
    } else {
        pairs.len() as int
    }
}

/// Reads the value that starts at `at`.
pub open spec fn read_value(tokens: Seq<TokenModel>, at: int, budget: int) -> Read
    decreases tokens.len() - at, 0int,
{
    if !(0 <= at < tokens.len()) || tokens[at] is End || tokens[at] is Invalid {
        Read::Failed(Reason::InvalidBencode)
    } else if budget < VALUE_COST {
        Read::Failed(Reason::SemanticCapacity)
    } else {
        match tokens[at] {
            TokenModel::Bytes(bytes) => Read::Done(Tree::Bytes(bytes), at + 1, budget - VALUE_COST),
            TokenModel::Number(text) => match number_value(text) {
                Some(n) if i64::MIN <= n <= i64::MAX => Read::Done(
                    Tree::Integer(n),
                    at + 1,
                    budget - VALUE_COST,
                ),
                _ => Read::Failed(Reason::IntegerRange),
            },
            TokenModel::List => read_items(tokens, at + 1, budget - VALUE_COST, seq![]),
            _ => read_pairs(tokens, at + 1, budget - VALUE_COST, seq![]),
        }
    }
}

/// Reads the rest of a list whose first items are `items`.
pub open spec fn read_items(
    tokens: Seq<TokenModel>,
    at: int,
    budget: int,
    items: Seq<Tree>,
) -> Read
    decreases tokens.len() - at, 1int,
{
    if 0 <= at < tokens.len() && tokens[at] is End {
        Read::Done(Tree::List(items), at + 1, budget)
    } else {
        match read_value(tokens, at, budget) {
            Read::Failed(reason) => Read::Failed(reason),
            Read::Done(item, behind, left) => if at < behind <= tokens.len() {
                read_items(tokens, behind, left, items.push(item))
            } else {
                Read::Failed(Reason::InvalidBencode)
            },
        }
    }
}

/// Reads the rest of a dictionary whose first pairs, in ascending order, are `pairs`.
pub open spec fn read_pairs(
    tokens: Seq<TokenModel>,
    at: int,
    budget: int,
    pairs: Seq<(Seq<u8>, Tree)>,
) -> Read
    decreases tokens.len() - at, 1int,
{
    if !(0 <= at < tokens.len()) {
        Read::Failed(Reason::InvalidBencode)
    } else if tokens[at] is End {
        Read::Done(Tree::Dict(pairs), at + 1, budget)
    } else if let TokenModel::Bytes(key) = tokens[at] {
        match read_value(tokens, at + 1, budget) {
            Read::Failed(reason) => Read::Failed(reason),
            Read::Done(value, behind, left) => {
                let slot = key_slot(pairs, key);
                if slot > 0 && pairs[slot - 1].0 == key {
                    Read::Failed(Reason::DuplicateKey)
                } else if at < behind <= tokens.len() {
                    read_pairs(tokens, behind, left, pairs.insert(slot, (key, value)))
                } else {
                    Read::Failed(Reason::InvalidBencode)
                }
            },
        }
    } else {
        Read::Failed(Reason::InvalidBencode)
    }
}

/// The model of a list is made of the models of its items.
pub proof fn lemma_list_tree(items: Vec<Value>)
    ensures
        Value::List(items).tree() == Tree::List(item_trees(items@)),
{
    assert(Value::List(items).tree()->List_0 =~= item_trees(items@));
}

/// The model of a dictionary is made of the models of its pairs.
pub proof fn lemma_dict_tree(entries: Vec<Entry>)
    ensures
        Value::Dict(entries).tree() == Tree::Dict(entry_trees(entries@)),
{
    assert(Value::Dict(entries).tree()->Dict_0 =~= entry_trees(entries@));
}

/// A value, the position behind its last token and the budget that is left.
#[derive(Debug)]
pub struct Decoded<'a> {
    pub value: Value<'a>,
    pub behind: usize,
    pub budget: usize,
}

/// Whether `result` is what `read` says.
pub open spec fn decoded_as(result: Result<Decoded, Reason>, read: Read) -> bool {
    match read {
        Read::Done(tree, behind, left) => {
            &&& result is Ok
            &&& result->Ok_0.value.tree() == tree
            &&& result->Ok_0.behind == behind
            &&& result->Ok_0.budget == left
        },
        Read::Failed(reason) => result == Err::<Decoded, Reason>(reason),
    }
}

/// Where `key` belongs among the pairs.
fn find_slot(entries: &Vec<Entry>, key: &[u8]) -> (slot: usize)
    ensures
        slot == key_slot(entry_trees(entries@), key@),
        slot <= entries.len(),
{
    let mut slot: usize = entries.len();
    let ghost pairs = entry_trees(entries@);
    assert(pairs.take(pairs.len() as int) =~= pairs);
    while slot > 0 && bytes_less(key, entries[slot - 1].key)
        invariant
            slot <= entries.len(),
            pairs == entry_trees(entries@),
            key_slot(pairs, key@) == key_slot(pairs.take(slot as int), key@),
        decreases slot,
    {
        assert(pairs.take(slot as int).drop_last() =~= pairs.take(slot - 1));
        slot -= 1;
    }
    slot
}

/// Reads the value that starts at token `at`, taking its cost from `budget`.
pub fn value<'a>(tokens: &[Token<'a>], at: usize, budget: usize) -> (result: Result<
    Decoded<'a>,
    Reason,
>)
    ensures
        decoded_as(result, read_value(token_models(tokens@), at as int, budget as int)),
        result is Ok ==> at < result->Ok_0.behind <= tokens.len(),
    decreases tokens.len() - at, 0int,
{
    let ghost models = token_models(tokens@);
    if at >= tokens.len() {
        return Err(Reason::InvalidBencode);
    }
    assert(models[at as int] == tokens@[at as int]@);
    let token = tokens[at];
    if matches!(token, Token::End | Token::Invalid) {
        return Err(Reason::InvalidBencode);
    }
    if budget < VALUE_COST {
        return Err(Reason::SemanticCapacity);
    }
    let left: usize = budget - VALUE_COST;
    match token {
        Token::Bytes(bytes) => Ok(Decoded { value: Value::Bytes(bytes), behind: at + 1, budget: left }),
        Token::Number(text) => match parse_number(text) {
            Some(n) => Ok(Decoded { value: Value::Integer(n), behind: at + 1, budget: left }),
            None => Err(Reason::IntegerRange),
        },
        Token::List => list_value(tokens, at + 1, left),
        _ => dict_value(tokens, at + 1, left),
    }
}

/// Reads the items of a list, the first of which starts at token `at`.
fn list_value<'a>(tokens: &[Token<'a>], at: usize, budget: usize) -> (result: Result<
    Decoded<'a>,
    Reason,
>)
    requires
        0 < at <= tokens.len(),
    ensures
        decoded_as(result, read_items(token_models(tokens@), at as int, budget as int, seq![])),
        result is Ok ==> at < result->Ok_0.behind <= tokens.len(),
    decreases tokens.len() - at, 1int,
{
    let ghost models = token_models(tokens@);
    let ghost whole = read_items(models, at as int, budget as int, seq![]);
    let mut items: Vec<Value<'a>> = Vec::new();
    let mut next: usize = at;
    let mut left: usize = budget;
    assert(item_trees(items@) =~= seq![]);
    loop
        invariant
            models == token_models(tokens@),
            at <= next <= tokens.len(),
            whole == read_items(models, at as int, budget as int, seq![]),
            whole == read_items(models, next as int, left as int, item_trees(items@)),
        decreases tokens.len() - next,
    {
        if next < tokens.len() {
            assert(models[next as int] == tokens@[next as int]@);
            if matches!(tokens[next], Token::End) {
                proof {
                    lemma_list_tree(items);
                }
                return Ok(Decoded { value: Value::List(items), behind: next + 1, budget: left });
            }
        }
        match value(tokens, next, left) {
            Err(reason) => {
                return Err(reason);
            },
            Ok(item) => {
                let ghost before = item_trees(items@);
                let ghost tree = item.value.tree();
                items.push(item.value);
                assert(item_trees(items@) =~= before.push(tree));
                next = item.behind;
                left = item.budget;
            },
        }
    }
}

/// Reads the pairs of a dictionary, the first of which starts at token `at`.
fn dict_value<'a>(tokens: &[Token<'a>], at: usize, budget: usize) -> (result: Result<
    Decoded<'a>,
    Reason,
>)
    requires
        0 < at <= tokens.len(),
    ensures
        decoded_as(result, read_pairs(token_models(tokens@), at as int, budget as int, seq![])),
        result is Ok ==> at < result->Ok_0.behind <= tokens.len(),
    decreases tokens.len() - at, 1int,
{
    let ghost models = token_models(tokens@);
    let ghost whole = read_pairs(models, at as int, budget as int, seq![]);
    let mut entries: Vec<Entry<'a>> = Vec::new();
    let mut next: usize = at;
    let mut left: usize = budget;
    assert(entry_trees(entries@) =~= seq![]);
    while next < tokens.len()
        invariant
            models == token_models(tokens@),
            at <= next <= tokens.len(),
            whole == read_pairs(models, at as int, budget as int, seq![]),
            whole == read_pairs(models, next as int, left as int, entry_trees(entries@)),
        decreases tokens.len() - next,
    {
        assert(models[next as int] == tokens@[next as int]@);
        match tokens[next] {
            Token::End => {
                proof {
                    lemma_dict_tree(entries);
                }
                return Ok(Decoded { value: Value::Dict(entries), behind: next + 1, budget: left });
            },
            Token::Bytes(key) => match value(tokens, next + 1, left) {
                Err(reason) => {
                    return Err(reason);
                },
                Ok(item) => {
                    let slot: usize = find_slot(&entries, key);
                    if slot > 0 && bytes_equal(entries[slot - 1].key, key) {
                        return Err(Reason::DuplicateKey);
                    }
                    let ghost before = entry_trees(entries@);
                    let ghost tree = item.value.tree();
                    entries.insert(slot, Entry { key, value: item.value });
                    assert(entry_trees(entries@) =~= before.insert(slot as int, (key@, tree)));
                    next = item.behind;
                    left = item.budget;
                },
            },
            _ => {
                return Err(Reason::InvalidBencode);
            },
        }
    }
    Err(Reason::InvalidBencode)
}

/// Reads a whole document: one value and nothing behind it.
pub open spec fn read_document(tokens: Seq<TokenModel>, budget: int) -> Read {
    if tokens.len() == 0 {
        Read::Failed(Reason::MissingDictionary)
    } else {
        match read_value(tokens, 0, budget) {
            Read::Failed(reason) => Read::Failed(reason),
            Read::Done(tree, behind, left) => if behind >= tokens.len() {
                Read::Done(tree, behind, left)
            } else if tokens[behind] is End || tokens[behind] is Invalid {
                Read::Failed(Reason::InvalidBencode)
            } else {
                Read::Failed(Reason::TrailingData)
            },
        }
    }
}

/// Reads a whole document, taking the cost of its values from `budget`.
pub fn document<'a>(tokens: &[Token<'a>], budget: usize) -> (result: Result<Decoded<'a>, Reason>)
    ensures
        decoded_as(result, read_document(token_models(tokens@), budget as int)),
{
    if tokens.len() == 0 {
        return Err(Reason::MissingDictionary);
    }
    match value(tokens, 0, budget) {
        Err(reason) => Err(reason),
        Ok(root) => {
            if root.behind < tokens.len() {
                assert(token_models(tokens@)[root.behind as int] == tokens@[root.behind as int]@);
                if matches!(tokens[root.behind], Token::End | Token::Invalid) {
                    Err(Reason::InvalidBencode)
                } else {
                    Err(Reason::TrailingData)
                }
            } else {
                Ok(root)
            }
        },
    }
}

/// The position behind the value that starts at `at`, with `open` containers already open;
/// nothing where the stream ends or fails first.
pub open spec fn value_span(tokens: Seq<TokenModel>, at: int, open: nat) -> Option<int>
    decreases tokens.len() - at,
{
    if !(0 <= at < tokens.len()) {
        None
    } else {
        match tokens[at] {
            TokenModel::Invalid => None,
            TokenModel::List => value_span(tokens, at + 1, open + 1),
            TokenModel::Dict => value_span(tokens, at + 1, open + 1),
            TokenModel::End => if open == 0 {
                None
            } else if open == 1 {
                Some(at + 1)
            } else {
                value_span(tokens, at + 1, (open - 1) as nat)
            },
            _ => if open == 0 {
                Some(at + 1)
            } else {
                value_span(tokens, at + 1, open)
            },
        }
    }
}

/// The position of the value under `key` in the dictionary whose next pair starts at `at`, as far
/// as the stream goes without an error.
pub open spec fn key_position(tokens: Seq<TokenModel>, at: int, key: Seq<u8>) -> Option<int>
    decreases tokens.len() - at,
{
    if !(0 <= at < tokens.len()) {
        None
    } else if let TokenModel::Bytes(found) = tokens[at] {
        if found == key {
            Some(at + 1)
        } else {
            match value_span(tokens, at + 1, 0) {
                Some(behind) if at < behind <= tokens.len() => key_position(tokens, behind, key),
                _ => None,
            }
        }
    } else {
        None
    }
}

/// Skips the value that starts at token `at`.
pub(crate) fn skip_value(tokens: &[Token], at: usize) -> (behind: Option<usize>)
    requires
        at <= tokens.len(),
    ensures
        behind is Some == value_span(token_models(tokens@), at as int, 0) is Some,
        behind is Some ==> behind->0 == value_span(token_models(tokens@), at as int, 0)->0 && at
            < behind->0 <= tokens.len(),
{
    let ghost models = token_models(tokens@);
    let ghost whole = value_span(models, at as int, 0);
    let mut next: usize = at;
    let mut open: usize = 0;
    while next < tokens.len()
        invariant
            models == token_models(tokens@),
            at <= next <= tokens.len(),
            open <= next,
            whole == value_span(models, next as int, open as nat),
            whole == value_span(models, at as int, 0),
        decreases tokens.len() - next,
    {
        assert(models[next as int] == tokens@[next as int]@);
        match tokens[next] {
            Token::Invalid => {
                return None;
            },
            Token::List | Token::Dict => {
                open += 1;
            },
            Token::End => {
                if open == 0 {
                    return None;
                }
                if open == 1 {
                    return Some(next + 1);
                }
                open -= 1;
            },
            _ => {
                if open == 0 {
                    return Some(next + 1);
                }
            },
        }
        next += 1;
    }
    None
}

/// The position behind the dictionary that the tokens start with.
pub open spec fn dictionary_end(tokens: Seq<TokenModel>) -> Option<int> {
    if tokens.len() == 0 || !(tokens[0] is Dict) {
        None
    } else {
        value_span(tokens, 0, 0)
    }
}

/// Skips the dictionary that the tokens start with.
pub(crate) fn skip_dictionary(tokens: &[Token]) -> (behind: Option<usize>)
    ensures
        match behind {
            Some(behind) => dictionary_end(token_models(tokens@)) == Some(behind as int),
            None => dictionary_end(token_models(tokens@)) is None,
        },
{
    if tokens.len() == 0 {
        return None;
    }
    assert(token_models(tokens@)[0] == tokens@[0]@);
    if !matches!(tokens[0], Token::Dict) {
        return None;
    }
    skip_value(tokens, 0)
}

/// Finds the value under `key` in the dictionary whose first pair starts at token `at`.
pub(crate) fn find_key(tokens: &[Token], at: usize, key: &[u8]) -> (found: Option<usize>)
    requires
        at <= tokens.len(),
    ensures
        found is Some == key_position(token_models(tokens@), at as int, key@) is Some,
        found is Some ==> found->0 == key_position(token_models(tokens@), at as int, key@)->0
            && found->0 <= tokens.len(),
{
    let ghost models = token_models(tokens@);
    let ghost whole = key_position(models, at as int, key@);
    let mut next: usize = at;
    while next < tokens.len()
        invariant
            models == token_models(tokens@),
            next <= tokens.len(),
            whole == key_position(models, next as int, key@),
            whole == key_position(models, at as int, key@),
        decreases tokens.len() - next,
    {
        assert(models[next as int] == tokens@[next as int]@);
        match tokens[next] {
            Token::Bytes(name) => {
                if bytes_equal(name, key) {
                    return Some(next + 1);
                }
                match skip_value(tokens, next + 1) {
                    None => {
                        return None;
                    },
                    Some(behind) => {
                        next = behind;
                    },
                }
            },
            _ => {
                return None;
            },
        }
    }
    None
}

/// Tokens and values are modelled one by one.
pub proof fn lemma_models(tokens: Seq<Token>, items: Seq<Value>, entries: Seq<Entry>)
    ensures
        token_models(tokens).len() == tokens.len(),
        forall|i: int|
            0 <= i < tokens.len() ==> token_models(tokens)[i] == match #[trigger] tokens[i] {
                Token::List => TokenModel::List,
                Token::Dict => TokenModel::Dict,
                Token::Bytes(bytes) => TokenModel::Bytes(bytes@),
                Token::Number(text) => TokenModel::Number(text@),
                Token::End => TokenModel::End,
                Token::Invalid => TokenModel::Invalid,
            },
        item_trees(items).len() == items.len(),
        forall|i: int| 0 <= i < items.len() ==> item_trees(items)[i] == (#[trigger] items[i]).tree(),
        entry_trees(entries).len() == entries.len(),
        forall|i: int|
            0 <= i < entries.len() ==> entry_trees(entries)[i] == (
                (#[trigger] entries[i]).key@,
                entries[i].value.tree(),
            ),
        VALUE_COST == 96,
{
}

/// A byte string and a number are modelled as what they hold.
pub proof fn lemma_leaf_trees(bytes: &[u8], n: i64)
    ensures
        Value::Bytes(bytes).tree() == Tree::Bytes(bytes@),
        Value::Integer(n).tree() == Tree::Integer(n as int),
{
}

} // verus!
