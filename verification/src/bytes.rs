//! Byte strings and their lexicographic order.

use vstd::prelude::*;
use vstd::slice::slice_to_vec;

verus! {

/// The outcome of comparing two byte strings.
#[derive(Clone, Copy, Debug, PartialEq, Eq, Structural)]
pub enum Order {
    Less,
    Equal,
    Greater,
}

/// `a` and `b` agree on the first `n` bytes, and `a` is the smaller one at `n`:
/// it ends there, or it has the smaller byte there.
pub open spec fn smaller_at(a: Seq<u8>, b: Seq<u8>, n: int) -> bool {
    &&& 0 <= n <= a.len()
    &&& n < b.len()
    &&& forall|i: int| 0 <= i < n ==> a[i] == b[i]
    &&& n < a.len() ==> a[n] < b[n]
}

/// The lexicographic order of byte strings.
pub open spec fn lex_lt(a: Seq<u8>, b: Seq<u8>) -> bool {
    exists|n: int| smaller_at(a, b, n)
}

/// Smaller or equal in the lexicographic order.
pub open spec fn lex_le(a: Seq<u8>, b: Seq<u8>) -> bool {
    a == b || lex_lt(a, b)
}

/// The order has no cycles of length two, and nothing is smaller than itself.
pub broadcast proof fn lex_lt_asym(a: Seq<u8>, b: Seq<u8>)
    requires
        #[trigger] lex_lt(a, b),
    ensures
        !lex_lt(b, a),
        a != b,
{
    let n = choose|n: int| smaller_at(a, b, n);
    assert(a != b) by {
        if a == b {
            assert(n < a.len());
        }
    }
    if lex_lt(b, a) {
        let m = choose|m: int| smaller_at(b, a, m);
        assert(smaller_at(a, b, n));
        assert(smaller_at(b, a, m));
        if n < m {
            assert(b[n] == a[n]);
        } else if m < n {
            assert(b[m] == a[m]);
        }
    }
}

/// The order is transitive.
pub broadcast proof fn lex_lt_trans(a: Seq<u8>, b: Seq<u8>, c: Seq<u8>)
    requires
        #[trigger] lex_lt(a, b),
        #[trigger] lex_lt(b, c),
    ensures
        lex_lt(a, c),
{
    let n = choose|n: int| smaller_at(a, b, n);
    let m = choose|m: int| smaller_at(b, c, m);
    assert(smaller_at(a, b, n));
    assert(smaller_at(b, c, m));
    let k = if n < m { n } else { m };
    assert(smaller_at(a, c, k)) by {
        assert forall|i: int| 0 <= i < k implies a[i] == c[i] by {
            assert(a[i] == b[i]);
            assert(b[i] == c[i]);
        }
        if n < m {
            assert(b[n] == c[n]);
        } else if m < n {
            assert(a[m] == b[m]);
        }
    }
}

/// Two byte strings of which neither is smaller are equal.
pub proof fn lex_total(a: Seq<u8>, b: Seq<u8>)
    ensures
        lex_lt(a, b) || lex_lt(b, a) || a == b,
{
    lex_total_from(a, b, 0);
}

proof fn lex_total_from(a: Seq<u8>, b: Seq<u8>, n: int)
    requires
        0 <= n <= a.len(),
        n <= b.len(),
        forall|i: int| 0 <= i < n ==> a[i] == b[i],
    ensures
        lex_lt(a, b) || lex_lt(b, a) || a == b,
    decreases a.len() - n,
{
    if n == a.len() && n == b.len() {
        assert(a =~= b);
    } else if n == a.len() {
        assert(smaller_at(a, b, n));
    } else if n == b.len() {
        assert(smaller_at(b, a, n));
    } else if a[n] < b[n] {
        assert(smaller_at(a, b, n));
    } else if b[n] < a[n] {
        assert(smaller_at(b, a, n));
    } else {
        lex_total_from(a, b, n + 1);
    }
}

/// A common prefix does not matter to the order.
pub proof fn lex_lt_prefix(p: Seq<u8>, a: Seq<u8>, b: Seq<u8>)
    ensures
        lex_lt(p + a, p + b) == lex_lt(a, b),
{
    if lex_lt(a, b) {
        let n = choose|n: int| smaller_at(a, b, n);
        assert(smaller_at(a, b, n));
        assert(smaller_at(p + a, p + b, n + p.len()));
    }
    if lex_lt(p + a, p + b) {
        let n = choose|n: int| smaller_at(p + a, p + b, n);
        assert(smaller_at(p + a, p + b, n));
        if n < p.len() {
            assert((p + a)[n] == p[n]);
            assert((p + b)[n] == p[n]);
        }
        assert(smaller_at(a, b, n - p.len())) by {
            assert forall|i: int| 0 <= i < n - p.len() implies a[i] == b[i] by {
                assert((p + a)[i + p.len()] == a[i]);
                assert((p + b)[i + p.len()] == b[i]);
            }
        }
    }
}

/// Compares two byte strings lexicographically.
pub fn compare(a: &[u8], b: &[u8]) -> (r: Order)
    ensures
        r == Order::Less <==> lex_lt(a@, b@),
        r == Order::Equal <==> a@ == b@,
        r == Order::Greater <==> lex_lt(b@, a@),
{
    broadcast use lex_lt_asym;

    let mut i: usize = 0;
    while i < a.len() && i < b.len()
        invariant
            i <= a@.len(),
            i <= b@.len(),
            forall|j: int| 0 <= j < i ==> a@[j] == b@[j],
        decreases a@.len() - i,
    {
        if a[i] < b[i] {
            assert(smaller_at(a@, b@, i as int));
            return Order::Less;
        }
        if b[i] < a[i] {
            assert(smaller_at(b@, a@, i as int));
            return Order::Greater;
        }
        i = i + 1;
    }
    if i < b.len() {
        assert(smaller_at(a@, b@, i as int));
        return Order::Less;
    }
    if i < a.len() {
        assert(smaller_at(b@, a@, i as int));
        return Order::Greater;
    }
    assert(a@ =~= b@);
    Order::Equal
}

/// Whether two byte strings are the same.
pub fn same(a: &[u8], b: &[u8]) -> (r: bool)
    ensures
        r == (a@ == b@),
{
    compare(a, b) == Order::Equal
}

/// Whether `a` is smaller than `b`.
pub fn less(a: &[u8], b: &[u8]) -> (r: bool)
    ensures
        r == lex_lt(a@, b@),
{
    compare(a, b) == Order::Less
}

/// A copy of a byte string.
pub fn copy_of(a: &[u8]) -> (r: Vec<u8>)
    ensures
        r@ == a@,
{
    slice_to_vec(a)
}

/// Whether two strings are the same.
pub fn same_str(a: &str, b: &str) -> (r: bool)
    ensures
        r == (a@ == b@),
{
    a.to_owned() == b.to_owned()
}

/// The views of a list of byte strings.
pub open spec fn views(v: Seq<Vec<u8>>) -> Seq<Seq<u8>> {
    Seq::new(v.len(), |i: int| v[i]@)
}

} // verus!
