//! The order of entry names.
//!
//! Names are ordered as strings are: byte by byte over their UTF-8 encoding.
//! The canonical form of a directory lists its entries in this order, so the
//! order has to be a strict total order on names; that is proved here.

use vstd::prelude::*;
use vstd::utf8::*;

verus! {

/// How one name stands to another.
#[derive(Debug, Clone, Copy, PartialEq, Eq, Structural)]
pub enum NameOrder {
    Before,
    Same,
    After,
}

/// The first position from `i` on at which `a` and `b` differ, or at which
/// one of them ends.
pub open spec fn first_difference(a: Seq<u8>, b: Seq<u8>, i: int) -> int
    decreases a.len() - i,
{
    if 0 <= i < a.len() && i < b.len() && a[i] == b[i] {
        first_difference(a, b, i + 1)
    } else {
        i
    }
}

/// `a` comes strictly before `b` in lexicographic byte order.
pub open spec fn bytes_lt(a: Seq<u8>, b: Seq<u8>) -> bool {
    let k = first_difference(a, b, 0);
    k < b.len() && (k >= a.len() || a[k] < b[k])
}

/// `a` comes strictly before `b` in the order of names.
pub open spec fn name_lt(a: Seq<char>, b: Seq<char>) -> bool {
    bytes_lt(encode_utf8(a), encode_utf8(b))
}

/// The names of `names` stand in strictly ascending order.
pub open spec fn strictly_sorted(names: Seq<Seq<char>>) -> bool {
    forall|i: int, j: int| 0 <= i < j < names.len() ==> name_lt(#[trigger] names[i], #[trigger] names[j])
}

/// What `first_difference` finds: the two sequences agree between `i` and
/// the result, and at the result they differ or one of them has ended.
pub proof fn lemma_first_difference(a: Seq<u8>, b: Seq<u8>, i: int)
    requires
        0 <= i <= a.len(),
        i <= b.len(),
    ensures
        i <= first_difference(a, b, i) <= a.len(),
        first_difference(a, b, i) <= b.len(),
        forall|j: int| i <= j < first_difference(a, b, i) ==> a[j] == b[j],
        first_difference(a, b, i) < a.len() && first_difference(a, b, i) < b.len() ==> a[first_difference(a, b, i)]
            != b[first_difference(a, b, i)],
    decreases a.len() - i,
{
    if i < a.len() && i < b.len() && a[i] == b[i] {
        lemma_first_difference(a, b, i + 1);
    }
}

/// A position up to which two sequences agree, and at which they differ or
/// one ends, is the one `first_difference` finds.
pub proof fn lemma_first_difference_is(a: Seq<u8>, b: Seq<u8>, i: int, k: int)
    requires
        0 <= i <= k <= a.len(),
        k <= b.len(),
        forall|j: int| i <= j < k ==> a[j] == b[j],
        k < a.len() && k < b.len() ==> a[k] != b[k],
    ensures
        first_difference(a, b, i) == k,
    decreases k - i,
{
    if i < k {
        lemma_first_difference_is(a, b, i + 1, k);
    }
}

/// The first difference does not depend on which sequence is named first.
pub proof fn lemma_first_difference_symmetric(a: Seq<u8>, b: Seq<u8>)
    ensures
        first_difference(a, b, 0) == first_difference(b, a, 0),
{
    lemma_first_difference(a, b, 0);
    lemma_first_difference_is(b, a, 0, first_difference(a, b, 0));
}

/// No byte sequence comes before itself.
pub proof fn lemma_bytes_lt_irreflexive(a: Seq<u8>)
    ensures
        !bytes_lt(a, a),
{
    lemma_first_difference(a, a, 0);
}

/// Of two byte sequences, exactly one of these holds: the first comes
/// before the second, they are equal, the second comes before the first.
pub proof fn lemma_bytes_trichotomy(a: Seq<u8>, b: Seq<u8>)
    ensures
        bytes_lt(a, b) || a == b || bytes_lt(b, a),
        !(bytes_lt(a, b) && bytes_lt(b, a)),
        !(bytes_lt(a, b) && a == b),
{
    lemma_first_difference(a, b, 0);
    lemma_first_difference_symmetric(a, b);
    lemma_bytes_lt_irreflexive(a);
    let k = first_difference(a, b, 0);
    if k == a.len() && k == b.len() {
        assert(a =~= b);
    }
}

/// The order of byte sequences is transitive.
pub proof fn lemma_bytes_lt_transitive(a: Seq<u8>, b: Seq<u8>, c: Seq<u8>)
    requires
        bytes_lt(a, b),
        bytes_lt(b, c),
    ensures
        bytes_lt(a, c),
{
    lemma_first_difference(a, b, 0);
    lemma_first_difference(b, c, 0);
    let k1 = first_difference(a, b, 0);
    let k2 = first_difference(b, c, 0);
    let k = if k1 <= k2 {
        k1
    } else {
        k2
    };
    lemma_first_difference_is(a, c, 0, k);
}

/// No name comes before itself.
pub proof fn lemma_name_lt_irreflexive(a: Seq<char>)
    ensures
        !name_lt(a, a),
{
    lemma_bytes_lt_irreflexive(encode_utf8(a));
}

/// Of two names, exactly one of these holds: the first comes before the
/// second, they are equal, the second comes before the first.
pub proof fn lemma_name_trichotomy(a: Seq<char>, b: Seq<char>)
    ensures
        name_lt(a, b) || a == b || name_lt(b, a),
        !(name_lt(a, b) && name_lt(b, a)),
        !(name_lt(a, b) && a == b),
{
    lemma_bytes_trichotomy(encode_utf8(a), encode_utf8(b));
    if encode_utf8(a) == encode_utf8(b) {
        encode_utf8_decode_utf8(a);
        encode_utf8_decode_utf8(b);
    }
}

/// The order of names is transitive.
pub proof fn lemma_name_lt_transitive(a: Seq<char>, b: Seq<char>, c: Seq<char>)
    requires
        name_lt(a, b),
        name_lt(b, c),
    ensures
        name_lt(a, c),
{
    lemma_bytes_lt_transitive(encode_utf8(a), encode_utf8(b), encode_utf8(c));
}

/// Two strictly ascending lists that hold the same names are the same list.
pub proof fn lemma_sorted_names_unique(xs: Seq<Seq<char>>, ys: Seq<Seq<char>>)
    requires
        strictly_sorted(xs),
        strictly_sorted(ys),
        forall|n: Seq<char>| xs.contains(n) <==> ys.contains(n),
    ensures
        xs == ys,
    decreases xs.len(),
{
    if xs.len() == 0 {
        if ys.len() > 0 {
            assert(ys.contains(ys[0]));
            assert(xs.contains(ys[0]));
        }
        assert(xs =~= ys);
    } else if ys.len() == 0 {
        assert(xs.contains(xs[0]));
        assert(ys.contains(xs[0]));
    } else {
        // The least name of each list is in the other, so the two are equal.
        assert(xs.contains(xs[0]));
        assert(ys.contains(ys[0]));
        let i = choose|i: int| 0 <= i < ys.len() && ys[i] == xs[0];
        let j = choose|j: int| 0 <= j < xs.len() && xs[j] == ys[0];
        lemma_name_trichotomy(xs[0], ys[0]);
        if i > 0 {
            assert(name_lt(ys[0], ys[i]));
        }
        if j > 0 {
            assert(name_lt(xs[0], xs[j]));
        }
        assert(xs[0] == ys[0]);
        let xt = xs.drop_first();
        let yt = ys.drop_first();
        assert(strictly_sorted(xt)) by {
            assert forall|i: int, j: int| 0 <= i < j < xt.len() implies name_lt(
                #[trigger] xt[i],
                #[trigger] xt[j],
            ) by {
                assert(name_lt(xs[i + 1], xs[j + 1]));
            }
        }
        assert(strictly_sorted(yt)) by {
            assert forall|i: int, j: int| 0 <= i < j < yt.len() implies name_lt(
                #[trigger] yt[i],
                #[trigger] yt[j],
            ) by {
                assert(name_lt(ys[i + 1], ys[j + 1]));
            }
        }
        assert forall|n: Seq<char>| xt.contains(n) <==> yt.contains(n) by {
            lemma_name_lt_irreflexive(xs[0]);
            if xt.contains(n) {
                let p = choose|p: int| 0 <= p < xt.len() && xt[p] == n;
                assert(xs[p + 1] == n);
                assert(name_lt(xs[0], xs[p + 1]));
                assert(xs.contains(n));
                let q = choose|q: int| 0 <= q < ys.len() && ys[q] == n;
                assert(q != 0);
                assert(yt[q - 1] == n);
            }
            if yt.contains(n) {
                let p = choose|p: int| 0 <= p < yt.len() && yt[p] == n;
                assert(ys[p + 1] == n);
                assert(name_lt(ys[0], ys[p + 1]));
                assert(ys.contains(n));
                let q = choose|q: int| 0 <= q < xs.len() && xs[q] == n;
                assert(q != 0);
                assert(xt[q - 1] == n);
            }
        }
        lemma_sorted_names_unique(xt, yt);
        assert(xs =~= seq![xs[0]] + xt);
        assert(ys =~= seq![ys[0]] + yt);
    }
}

/// Compares two byte strings in lexicographic order.
pub fn compare_bytes(a: &[u8], b: &[u8]) -> (r: NameOrder)
    ensures
        r == NameOrder::Before <==> bytes_lt(a@, b@),
        r == NameOrder::Same <==> a@ == b@,
        r == NameOrder::After <==> bytes_lt(b@, a@),
{
    let mut i: usize = 0;
    while i < a.len() && i < b.len() && a[i] == b[i]
        invariant
            0 <= i <= a@.len(),
            i <= b@.len(),
            first_difference(a@, b@, 0) == first_difference(a@, b@, i as int),
        decreases a@.len() - i,
    {
        i += 1;
    }
    proof {
        lemma_bytes_trichotomy(a@, b@);
        lemma_first_difference_symmetric(a@, b@);
        lemma_first_difference(a@, b@, 0);
        if i == a@.len() && i == b@.len() {
            assert(a@ =~= b@);
        }
    }
    if i < b.len() {
        if i >= a.len() || a[i] < b[i] {
            NameOrder::Before
        } else {
            NameOrder::After
        }
    } else if i < a.len() {
        NameOrder::After
    } else {
        NameOrder::Same
    }
}

/// Compares two names in the order of names.
pub fn compare_names(a: &str, b: &str) -> (r: NameOrder)
    ensures
        r == NameOrder::Before <==> name_lt(a@, b@),
        r == NameOrder::Same <==> a@ == b@,
        r == NameOrder::After <==> name_lt(b@, a@),
{
    proof {
        lemma_name_trichotomy(a@, b@);
    }
    compare_bytes(a.as_bytes(), b.as_bytes())
}

/// Whether two names are the same.
pub fn same_name(a: &str, b: &str) -> (r: bool)
    ensures
        r == (a@ == b@),
{
    match compare_names(a, b) {
        NameOrder::Same => true,
        _ => false,
    }
}

} // verus!
