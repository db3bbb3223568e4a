//! Lexicographic order of byte strings and of paths.

use vstd::prelude::*;

verus! {

/// Whether byte string `a` comes before `b` in lexicographic order.
pub open spec fn bytes_before(a: Seq<u8>, b: Seq<u8>) -> bool
    decreases a.len(),
{
    if b.len() == 0 {
        false
    } else if a.len() == 0 {
        true
    } else {
        a[0] < b[0] || (a[0] == b[0] && bytes_before(a.drop_first(), b.drop_first()))
    }
}

/// Whether path `a` comes before `b` in lexicographic order of their parts.
pub open spec fn path_before(a: Seq<Seq<u8>>, b: Seq<Seq<u8>>) -> bool
    decreases a.len(),
{
    if b.len() == 0 {
        false
    } else if a.len() == 0 {
        true
    } else {
        bytes_before(a[0], b[0]) || (a[0] == b[0] && path_before(a.drop_first(), b.drop_first()))
    }
}

/// Whether `a` is a prefix of `b`, which may be equal.
pub open spec fn path_within(a: Seq<Seq<u8>>, b: Seq<Seq<u8>>) -> bool {
    a.len() <= b.len() && b.take(a.len() as int) == a
}

/// Sequences with the same head and the same rest are equal.
proof fn lemma_rebuilt<T>(a: Seq<T>, b: Seq<T>)
    requires
        a.len() > 0,
        b.len() > 0,
        a[0] == b[0],
        a.drop_first() == b.drop_first(),
    ensures
        a == b,
{
    assert(a.drop_first().len() == a.len() - 1);
    assert(b.drop_first().len() == b.len() - 1);
    assert forall|i: int| 0 <= i < a.len() implies a[i] == b[i] by {
        if i > 0 {
            assert(a.drop_first()[i - 1] == a[i]);
            assert(b.drop_first()[i - 1] == b[i]);
        }
    }
    assert(a =~= b);
}

/// No byte string comes before itself.
pub proof fn lemma_bytes_irreflexive(a: Seq<u8>)
    ensures
        !bytes_before(a, a),
    decreases a.len(),
{
    if a.len() > 0 {
        lemma_bytes_irreflexive(a.drop_first());
    }
}

/// The order of byte strings is transitive.
pub proof fn lemma_bytes_transitive(a: Seq<u8>, b: Seq<u8>, c: Seq<u8>)
    requires
        bytes_before(a, b),
        bytes_before(b, c),
    ensures
        bytes_before(a, c),
    decreases a.len(),
{
    if a.len() > 0 && a[0] == b[0] && b[0] == c[0] {
        lemma_bytes_transitive(a.drop_first(), b.drop_first(), c.drop_first());
    }
}

/// Of two different byte strings one comes before the other.
pub proof fn lemma_bytes_total(a: Seq<u8>, b: Seq<u8>)
    ensures
        a == b || bytes_before(a, b) || bytes_before(b, a),
    decreases a.len(),
{
    if a.len() > 0 && b.len() > 0 && a[0] == b[0] {
        lemma_bytes_total(a.drop_first(), b.drop_first());
        if a.drop_first() == b.drop_first() {
            lemma_rebuilt(a, b);
        }
    } else if a.len() == 0 && b.len() == 0 {
        assert(a =~= b);
    }
}

/// No path comes before itself.
pub proof fn lemma_path_irreflexive(a: Seq<Seq<u8>>)
    ensures
        !path_before(a, a),
    decreases a.len(),
{
    if a.len() > 0 {
        lemma_bytes_irreflexive(a[0]);
        lemma_path_irreflexive(a.drop_first());
    }
}

/// The order of paths is transitive.
pub proof fn lemma_path_transitive(a: Seq<Seq<u8>>, b: Seq<Seq<u8>>, c: Seq<Seq<u8>>)
    requires
        path_before(a, b),
        path_before(b, c),
    ensures
        path_before(a, c),
    decreases a.len(),
{
    if a.len() > 0 {
        if bytes_before(a[0], b[0]) && bytes_before(b[0], c[0]) {
            lemma_bytes_transitive(a[0], b[0], c[0]);
        } else if a[0] == b[0] && b[0] == c[0] {
            if bytes_before(a[0], a[0]) {
                lemma_bytes_irreflexive(a[0]);
            }
            lemma_path_transitive(a.drop_first(), b.drop_first(), c.drop_first());
        }
    }
}

/// Of two different paths one comes before the other.
pub proof fn lemma_path_total(a: Seq<Seq<u8>>, b: Seq<Seq<u8>>)
    ensures
        a == b || path_before(a, b) || path_before(b, a),
    decreases a.len(),
{
    if a.len() > 0 && b.len() > 0 {
        lemma_bytes_total(a[0], b[0]);
        if a[0] == b[0] {
            lemma_path_total(a.drop_first(), b.drop_first());
            if a.drop_first() == b.drop_first() {
                lemma_rebuilt(a, b);
            }
        }
    } else if a.len() == 0 && b.len() == 0 {
        assert(a =~= b);
    }
}

/// A path never comes before one of its own prefixes.
pub proof fn lemma_prefix_not_after(a: Seq<Seq<u8>>, b: Seq<Seq<u8>>)
    requires
        path_within(a, b),
    ensures
        !path_before(b, a),
    decreases a.len(),
{
    if a.len() > 0 {
        assert(b[0] == b.take(a.len() as int)[0]);
        lemma_bytes_irreflexive(a[0]);
        assert(b.drop_first().take(a.len() - 1) =~= a.drop_first());
        lemma_prefix_not_after(a.drop_first(), b.drop_first());
    }
}

/// What lies between a prefix and a path that it begins is begun by that prefix too.
pub proof fn lemma_prefix_between(a: Seq<Seq<u8>>, b: Seq<Seq<u8>>, c: Seq<Seq<u8>>)
    requires
        path_within(a, c),
        !path_before(b, a),
        !path_before(c, b),
    ensures
        path_within(a, b),
    decreases a.len(),
{
    if a.len() > 0 {
        assert(c[0] == c.take(a.len() as int)[0]);
        assert(a[0] == c[0]);
        if b.len() == 0 {
            assert(path_before(b, a));
        }
        lemma_bytes_total(a[0], b[0]);
        assert(a[0] == b[0]);
        assert(c.drop_first().take(a.len() - 1) =~= a.drop_first());
        lemma_prefix_between(a.drop_first(), b.drop_first(), c.drop_first());
        assert(b.take(a.len() as int) =~= seq![b[0]] + b.drop_first().take(a.len() - 1));
        assert(a =~= seq![a[0]] + a.drop_first());
    } else {
        assert(b.take(0) =~= a);
    }
}

/// Whether byte string `a` comes before `b`.
pub fn bytes_less(a: &[u8], b: &[u8]) -> (less: bool)
    ensures
        less == bytes_before(a@, b@),
{
    let mut i: usize = 0;
    assert(a@.skip(0) =~= a@ && b@.skip(0) =~= b@);
    while i < a.len() && i < b.len()
        invariant
            i <= a.len(),
            i <= b.len(),
            bytes_before(a@, b@) == bytes_before(a@.skip(i as int), b@.skip(i as int)),
        decreases a.len() - i,
    {
        if a[i] != b[i] {
            return a[i] < b[i];
        }
        assert(a@.skip(i as int).drop_first() =~= a@.skip(i + 1));
        assert(b@.skip(i as int).drop_first() =~= b@.skip(i + 1));
        i += 1;
    }
    i < b.len()
}

/// Whether two byte strings are equal.
pub fn bytes_equal(a: &[u8], b: &[u8]) -> (equal: bool)
    ensures
        equal == (a@ == b@),
{
    if a.len() != b.len() {
        return false;
    }
    for i in 0..a.len()
        invariant
            a.len() == b.len(),
            forall|k: int| 0 <= k < i ==> a@[k] == b@[k],
    {
        if a[i] != b[i] {
            return false;
        }
    }
    assert(a@ =~= b@);
    true
}

/// Byte strings are ordered by the first byte in which they differ, and a beginning comes before
/// what it begins.
pub proof fn lemma_bytes_order(a: Seq<u8>, b: Seq<u8>, at: int)
    requires
        0 <= at <= a.len(),
        at <= b.len(),
        forall|i: int| 0 <= i < at ==> #[trigger] a[i] == b[i],
    ensures
        at < a.len() && at < b.len() && a[at] < b[at] ==> bytes_before(a, b) && !bytes_before(b, a),
        at == a.len() && at < b.len() ==> bytes_before(a, b) && !bytes_before(b, a),
    decreases at,
{
    if at > 0 {
        let (x, y) = (a.drop_first(), b.drop_first());
        assert forall|i: int| 0 <= i < at - 1 implies #[trigger] x[i] == y[i] by {
            assert(a[i + 1] == b[i + 1]);
        }
        lemma_bytes_order(x, y, at - 1);
        assert(a[0] == b[0]);
    }
}

/// Paths are ordered by the first part in which they differ, and a path comes before those below it.
pub proof fn lemma_path_order(a: Seq<Seq<u8>>, b: Seq<Seq<u8>>, at: int)
    requires
        0 <= at <= a.len(),
        at <= b.len(),
        forall|i: int| 0 <= i < at ==> #[trigger] a[i] == b[i],
    ensures
        at < a.len() && at < b.len() && bytes_before(a[at], b[at]) ==> path_before(a, b)
            && !path_before(b, a),
        at == a.len() && at < b.len() ==> path_before(a, b) && !path_before(b, a),
        at == a.len() ==> path_within(a, b),
        at < a.len() && (at == b.len() || a[at] != b[at]) ==> !path_within(a, b),
    decreases at,
{
    if at < a.len() && at < b.len() && bytes_before(a[at], b[at]) {
        if bytes_before(b[at], a[at]) {
            lemma_bytes_transitive(a[at], b[at], a[at]);
        }
        lemma_bytes_irreflexive(a[at]);
    }
    if at > 0 {
        let (x, y) = (a.drop_first(), b.drop_first());
        assert forall|i: int| 0 <= i < at - 1 implies #[trigger] x[i] == y[i] by {
            assert(a[i + 1] == b[i + 1]);
        }
        lemma_path_order(x, y, at - 1);
        assert(a[0] == b[0]);
        lemma_bytes_irreflexive(a[0]);
    }
    if at == a.len() {
        assert(b.take(at) =~= a);
    } else if path_within(a, b) {
        assert(b.take(a.len() as int)[at] == b[at]);
    }
}

} // verus!
