//! Typed access to the fields of a dictionary.

use crate::bencode::{entry_trees, item_trees, Entry, Tree, Value};
use crate::order::bytes_equal;
use crate::reason::Reason;
use crate::text::parts_view;
use vstd::prelude::*;

verus! {

/// The pairs of a dictionary.
pub type Pairs = Seq<(Seq<u8>, Tree)>;

/// The bytes of a key.
pub open spec fn key_bytes(name: &str) -> Seq<u8> {
    vstd::utf8::encode_utf8(name@)
}

/// The value under `key`, if there is one.
pub open spec fn lookup(pairs: Pairs, key: Seq<u8>) -> Option<Tree>
    decreases pairs.len(),
{
    if pairs.len() == 0 {
        None
    } else if pairs[0].0 == key {
        Some(pairs[0].1)
    } else {
        lookup(pairs.drop_first(), key)
    }
}

/// The pairs of a dictionary value.
pub open spec fn as_pairs(tree: Tree) -> Result<Pairs, Reason> {
    match tree {
        Tree::Dict(pairs) => Ok(pairs),
        _ => Err(Reason::DictionaryType),
    }
}

/// The bytes of a byte string value.
pub open spec fn as_bytes(tree: Tree) -> Result<Seq<u8>, Reason> {
    match tree {
        Tree::Bytes(bytes) => Ok(bytes),
        _ => Err(Reason::BytesType),
    }
}

/// The number of an integer value.
pub open spec fn as_integer(tree: Tree) -> Result<int, Reason> {
    match tree {
        Tree::Integer(n) => Ok(n),
        _ => Err(Reason::IntegerType),
    }
}

/// The value under a key that must be there.
pub open spec fn required_field(pairs: Pairs, key: Seq<u8>) -> Result<Tree, Reason> {
    match lookup(pairs, key) {
        Some(tree) => Ok(tree),
        None => Err(Reason::MissingField),
    }
}

/// The bytes under a key that must be there.
pub open spec fn required_bytes(pairs: Pairs, key: Seq<u8>) -> Result<Seq<u8>, Reason> {
    match required_field(pairs, key) {
        Ok(tree) => as_bytes(tree),
        Err(reason) => Err(reason),
    }
}

/// The number under a key that must be there and must not be negative.
pub open spec fn length_field(pairs: Pairs, key: Seq<u8>) -> Result<int, Reason> {
    match required_field(pairs, key) {
        Err(reason) => Err(reason),
        Ok(tree) => match as_integer(tree) {
            Err(reason) => Err(reason),
            Ok(n) => if n < 0 {
                Err(Reason::NegativeLength)
            } else {
                Ok(n)
            },
        },
    }
}

/// The bytes under a key that may be missing.
pub open spec fn bytes_field(pairs: Pairs, key: Seq<u8>) -> Result<Option<Seq<u8>>, Reason> {
    match lookup(pairs, key) {
        None => Ok(None),
        Some(tree) => match as_bytes(tree) {
            Ok(bytes) => Ok(Some(bytes)),
            Err(reason) => Err(reason),
        },
    }
}

/// The number under a key that may be missing.
pub open spec fn integer_field(pairs: Pairs, key: Seq<u8>) -> Result<Option<int>, Reason> {
    match lookup(pairs, key) {
        None => Ok(None),
        Some(tree) => match as_integer(tree) {
            Ok(n) => Ok(Some(n)),
            Err(reason) => Err(reason),
        },
    }
}

/// Whether a byte string may be a part of a path: not empty, neither `.` nor `..`, without a
/// slash, a backslash or a zero byte.
pub open spec fn is_segment(bytes: Seq<u8>) -> bool {
    &&& bytes.len() > 0
    &&& bytes != seq![46u8]
    &&& bytes != seq![46u8, 46u8]
    &&& !bytes.contains(47u8)
    &&& !bytes.contains(92u8)
    &&& !bytes.contains(0u8)
}

/// The parts of a path, or the first rule that an item breaks.
pub open spec fn path_parts(items: Seq<Tree>) -> Result<Seq<Seq<u8>>, Reason>
    decreases items.len(),
{
    if items.len() == 0 {
        Ok(seq![])
    } else {
        match path_parts(items.drop_last()) {
            Err(reason) => Err(reason),
            Ok(parts) => match as_bytes(items.last()) {
                Err(reason) => Err(reason),
                Ok(bytes) => if is_segment(bytes) {
                    Ok(parts.push(bytes))
                } else {
                    Err(Reason::InvalidPath)
                },
            },
        }
    }
}

/// The path that a value holds: a list of parts that is not empty.
pub open spec fn as_path(tree: Tree) -> Result<Seq<Seq<u8>>, Reason> {
    match tree {
        Tree::List(items) => if items.len() == 0 {
            Err(Reason::EmptyPath)
        } else {
            path_parts(items)
        },
        _ => Err(Reason::PathType),
    }
}

/// The path under a key that may be missing.
pub open spec fn path_field(pairs: Pairs, key: Seq<u8>) -> Result<Option<Seq<Seq<u8>>>, Reason> {
    match lookup(pairs, key) {
        None => Ok(None),
        Some(tree) => match as_path(tree) {
            Ok(parts) => Ok(Some(parts)),
            Err(reason) => Err(reason),
        },
    }
}

/// Takes `amount` from the budget.
pub fn charge(budget: &mut usize, amount: usize) -> (result: Result<(), Reason>)
    ensures
        amount <= *old(budget) ==> result is Ok && *final(budget) == *old(budget) - amount,
        amount > *old(budget) ==> result == Err::<(), Reason>(Reason::SemanticCapacity)
            && *final(budget) == *old(budget),
{
    match budget.checked_sub(amount) {
        Some(left) => {
            *budget = left;
            Ok(())
        },
        None => Err(Reason::SemanticCapacity),
    }
}

/// The pairs of a dictionary.
pub fn dictionary<'v, 'a>(value: &'v Value<'a>) -> (result: Result<&'v Vec<Entry<'a>>, Reason>)
    ensures
        match as_pairs(value.tree()) {
            Ok(pairs) => result is Ok && entry_trees(result->Ok_0@) == pairs && *value
                == Value::Dict(*result->Ok_0),
            Err(reason) => result == Err::<&'v Vec<Entry<'a>>, Reason>(reason),
        },
{
    match value {
        Value::Dict(entries) => {
            proof {
                crate::bencode::lemma_dict_tree(*entries);
            }
            Ok(entries)
        },
        _ => Err(Reason::DictionaryType),
    }
}

/// The bytes of a byte string.
pub fn bytes<'v, 'a>(value: &'v Value<'a>) -> (result: Result<&'a [u8], Reason>)
    ensures
        match as_bytes(value.tree()) {
            Ok(bytes) => result is Ok && result->Ok_0@ == bytes,
            Err(reason) => result == Err::<&'a [u8], Reason>(reason),
        },
{
    match value {
        Value::Bytes(bytes) => Ok(*bytes),
        _ => Err(Reason::BytesType),
    }
}

/// The number of an integer.
pub fn integer(value: &Value) -> (result: Result<i64, Reason>)
    ensures
        match as_integer(value.tree()) {
            Ok(n) => result is Ok && result->Ok_0 == n,
            Err(reason) => result == Err::<i64, Reason>(reason),
        },
{
    match value {
        Value::Integer(n) => Ok(*n),
        _ => Err(Reason::IntegerType),
    }
}

/// The value under `key`, if there is one.
pub fn get<'v, 'a>(entries: &'v Vec<Entry<'a>>, key: &[u8]) -> (found: Option<&'v Value<'a>>)
    ensures
        match lookup(entry_trees(entries@), key@) {
            Some(tree) => found is Some && found->0.tree() == tree && exists|i: int|
                0 <= i < entries@.len() && #[trigger] entries@[i].value == *found->0,
            None => found is None,
        },
{
    let ghost pairs = entry_trees(entries@);
    assert(pairs.skip(0) =~= pairs);
    for i in 0..entries.len()
        invariant
            pairs == entry_trees(entries@),
            lookup(pairs, key@) == lookup(pairs.skip(i as int), key@),
    {
        assert(pairs.skip(i as int)[0] == pairs[i as int]);
        if bytes_equal(entries[i].key, key) {
            return Some(&entries[i].value);
        }
        assert(pairs.skip(i as int).drop_first() =~= pairs.skip(i + 1));
    }
    None
}

/// The value under a key that must be there.
pub fn required<'v, 'a>(entries: &'v Vec<Entry<'a>>, key: &[u8]) -> (result: Result<
    &'v Value<'a>,
    Reason,
>)
    ensures
        match required_field(entry_trees(entries@), key@) {
            Ok(tree) => result is Ok && result->Ok_0.tree() == tree,
            Err(reason) => result == Err::<&'v Value<'a>, Reason>(reason),
        },
{
    match get(entries, key) {
        Some(value) => Ok(value),
        None => Err(Reason::MissingField),
    }
}

/// The number under a key that must be there and must not be negative.
pub fn length(entries: &Vec<Entry>, key: &[u8]) -> (result: Result<u64, Reason>)
    ensures
        match length_field(entry_trees(entries@), key@) {
            Ok(n) => result is Ok && result->Ok_0 == n,
            Err(reason) => result == Err::<u64, Reason>(reason),
        },
{
    match required(entries, key) {
        Err(reason) => Err(reason),
        Ok(value) => match integer(value) {
            Err(reason) => Err(reason),
            Ok(n) => if n < 0 {
                Err(Reason::NegativeLength)
            } else {
                Ok(n as u64)
            },
        },
    }
}

/// The bytes under a key that may be missing.
pub fn optional_bytes<'a>(entries: &Vec<Entry<'a>>, key: &[u8]) -> (result: Result<
    Option<&'a [u8]>,
    Reason,
>)
    ensures
        match bytes_field(entry_trees(entries@), key@) {
            Ok(Some(bytes)) => result is Ok && result->Ok_0 is Some && result->Ok_0->0@ == bytes,
            Ok(None) => result == Ok::<Option<&'a [u8]>, Reason>(None),
            Err(reason) => result == Err::<Option<&'a [u8]>, Reason>(reason),
        },
{
    match get(entries, key) {
        None => Ok(None),
        Some(value) => match bytes(value) {
            Ok(bytes) => Ok(Some(bytes)),
            Err(reason) => Err(reason),
        },
    }
}

/// The number under a key that may be missing.
pub fn optional_integer(entries: &Vec<Entry>, key: &[u8]) -> (result: Result<Option<i64>, Reason>)
    ensures
        match integer_field(entry_trees(entries@), key@) {
            Ok(Some(n)) => result is Ok && result->Ok_0 is Some && result->Ok_0->0 == n,
            Ok(None) => result == Ok::<Option<i64>, Reason>(None),
            Err(reason) => result == Err::<Option<i64>, Reason>(reason),
        },
{
    match get(entries, key) {
        None => Ok(None),
        Some(value) => match integer(value) {
            Ok(n) => Ok(Some(n)),
            Err(reason) => Err(reason),
        },
    }
}

/// Whether `byte` occurs in `bytes`.
pub fn has_byte(bytes: &[u8], byte: u8) -> (found: bool)
    ensures
        found == bytes@.contains(byte),
{
    for i in 0..bytes.len()
        invariant
            forall|k: int| 0 <= k < i ==> bytes@[k] != byte,
    {
        if bytes[i] == byte {
            return true;
        }
    }
    false
}

/// Accepts a byte string that may be a part of a path.
pub fn segment(bytes: &[u8]) -> (result: Result<(), Reason>)
    ensures
        is_segment(bytes@) ==> result is Ok,
        !is_segment(bytes@) ==> result == Err::<(), Reason>(Reason::InvalidPath),
{
    let dots = bytes.len() <= 2 && bytes.len() > 0 && bytes[0] == 46 && (bytes.len() == 1
        || bytes[1] == 46);
    proof {
        if bytes.len() == 1 && bytes[0] == 46 {
            assert(bytes@ =~= seq![46u8]);
        } else if bytes.len() == 2 && bytes[0] == 46 && bytes[1] == 46 {
            assert(bytes@ =~= seq![46u8, 46u8]);
        }
        assert(seq![46u8].len() == 1 && seq![46u8][0] == 46);
        assert(seq![46u8, 46u8].len() == 2 && seq![46u8, 46u8][0] == 46 && seq![46u8, 46u8][1] == 46);
    }
    if bytes.len() == 0 || dots || has_byte(bytes, 47) || has_byte(bytes, 92) || has_byte(bytes, 0) {
        Err(Reason::InvalidPath)
    } else {
        Ok(())
    }
}

/// A copy of a byte string.
pub fn copy_bytes(bytes: &[u8]) -> (copy: Vec<u8>)
    ensures
        copy@ == bytes@,
{
    vstd::slice::slice_to_vec(bytes)
}

/// The path that a value holds.
pub fn path(value: &Value) -> (result: Result<Vec<Vec<u8>>, Reason>)
    ensures
        match as_path(value.tree()) {
            Ok(parts) => result is Ok && parts_view(result->Ok_0@) == parts,
            Err(reason) => result == Err::<Vec<Vec<u8>>, Reason>(reason),
        },
{
    match value {
        Value::List(items) => {
            let ghost trees = item_trees(items@);
            proof {
                crate::bencode::lemma_list_tree(*items);
            }
            if items.len() == 0 {
                return Err(Reason::EmptyPath);
            }
            let mut parts: Vec<Vec<u8>> = Vec::new();
            assert(parts_view(parts@) =~= seq![]);
            assert(trees.take(0) =~= seq![]);
            for i in 0..items.len()
                invariant
                    trees == item_trees(items@),
                    value.tree() == Tree::List(trees),
                    trees.len() > 0,
                    path_parts(trees.take(i as int)) == Ok::<Seq<Seq<u8>>, Reason>(
                        parts_view(parts@),
                    ),
            {
                let ghost next = trees.take(i + 1);
                proof {
                    assert(next.drop_last() =~= trees.take(i as int));
                    assert(next.last() == items@[i as int].tree());
                }
                match bytes(&items[i]) {
                    Err(reason) => {
                        proof {
                            lemma_path_failure(trees, i + 1);
                        }
                        return Err(reason);
                    },
                    Ok(part) => {
                        if let Err(reason) = segment(part) {
                            proof {
                                lemma_path_failure(trees, i + 1);
                            }
                            return Err(reason);
                        }
                        let ghost before = parts_view(parts@);
                        parts.push(copy_bytes(part));
                        assert(parts_view(parts@) =~= before.push(part@));
                    },
                }
            }
            assert(trees.take(trees.len() as int) =~= trees);
            Ok(parts)
        },
        _ => Err(Reason::PathType),
    }
}

/// A path that fails in its first items fails as a whole, for the same reason.
proof fn lemma_path_failure(items: Seq<Tree>, n: int)
    requires
        0 <= n <= items.len(),
        path_parts(items.take(n)) is Err,
    ensures
        path_parts(items) == path_parts(items.take(n)),
    decreases items.len(),
{
    if n == items.len() {
        assert(items.take(n) =~= items);
    } else {
        assert(items.drop_last().take(n) =~= items.take(n));
        lemma_path_failure(items.drop_last(), n);
    }
}

} // verus!
