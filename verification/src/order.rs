//! Byte-wise lexicographic ordering of identifier payloads.
//!
//! The order between two identifiers is decided at the earliest position
//! where their payloads differ. On equal-length sequences this order is
//! total and transitive; the lemmas here state those laws once, over the
//! payload model, so that the comparison methods of the identifier type can
//! appeal to them.

use vstd::prelude::*;

verus! {

/// True when the first `n` elements of `a` and `b` agree.
pub open spec fn eq_prefix(a: Seq<u8>, b: Seq<u8>, n: int) -> bool {
    forall|k: int| 0 <= k < n ==> a[k] == b[k]
}

/// Strict byte-wise lexicographic order: `a` comes before `b` when, at the
/// earliest position where the two sequences differ, `a` holds the smaller
/// byte.
pub open spec fn lex_lt(a: Seq<u8>, b: Seq<u8>) -> bool {
    exists|i: int|
        #![trigger eq_prefix(a, b, i)]
        0 <= i < a.len() && i < b.len() && eq_prefix(a, b, i) && a[i] < b[i]
}

/// Two equal-length sequences that agree on a full prefix and are not equal
/// are ordered one way or the other.
proof fn lemma_first_difference(a: Seq<u8>, b: Seq<u8>, n: int)
    requires
        a.len() == b.len(),
        0 <= n <= a.len(),
        eq_prefix(a, b, n),
        a != b,
    ensures
        lex_lt(a, b) || lex_lt(b, a),
    decreases a.len() - n,
{
    if n == a.len() {
        assert(a =~= b);
    } else if a[n] < b[n] {
        assert(eq_prefix(a, b, n) && a[n] < b[n]);
    } else if b[n] < a[n] {
        assert(eq_prefix(b, a, n) && b[n] < a[n]);
    } else {
        assert(eq_prefix(a, b, n + 1));
        lemma_first_difference(a, b, n + 1);
    }
}

/// Exactly one of `lex_lt(a, b)`, `a == b`, `lex_lt(b, a)` holds for
/// equal-length sequences.
pub proof fn lemma_lex_trichotomy(a: Seq<u8>, b: Seq<u8>)
    requires
        a.len() == b.len(),
    ensures
        lex_lt(a, b) || a == b || lex_lt(b, a),
        lex_lt(a, b) ==> a != b,
        lex_lt(b, a) ==> a != b,
        !(lex_lt(a, b) && lex_lt(b, a)),
{
    if a != b {
        lemma_first_difference(a, b, 0);
    }
    if lex_lt(a, b) {
        let i = choose|i: int|
            #![trigger eq_prefix(a, b, i)]
            0 <= i < a.len() && i < b.len() && eq_prefix(a, b, i) && a[i] < b[i];
        assert(a[i] != b[i]);
        assert(a != b);
        if lex_lt(b, a) {
            let j = choose|j: int|
                #![trigger eq_prefix(b, a, j)]
                0 <= j < b.len() && j < a.len() && eq_prefix(b, a, j) && b[j] < a[j];
            if i < j {
                assert(b[i] == a[i]);
            } else if j < i {
                assert(a[j] == b[j]);
            }
            assert(false);
        }
    }
    if lex_lt(b, a) {
        let j = choose|j: int|
            #![trigger eq_prefix(b, a, j)]
            0 <= j < b.len() && j < a.len() && eq_prefix(b, a, j) && b[j] < a[j];
        assert(b[j] != a[j]);
        assert(a != b);
    }
}

/// The lexicographic order is transitive.
pub proof fn lemma_lex_transitive(a: Seq<u8>, b: Seq<u8>, c: Seq<u8>)
    requires
        lex_lt(a, b),
        lex_lt(b, c),
    ensures
        lex_lt(a, c),
{
    let i = choose|i: int|
        #![trigger eq_prefix(a, b, i)]
        0 <= i < a.len() && i < b.len() && eq_prefix(a, b, i) && a[i] < b[i];
    let j = choose|j: int|
        #![trigger eq_prefix(b, c, j)]
        0 <= j < b.len() && j < c.len() && eq_prefix(b, c, j) && b[j] < c[j];
    if i < j {
        assert(b[i] == c[i]);
        assert(eq_prefix(a, c, i));
        assert(eq_prefix(a, c, i) && a[i] < c[i]);
    } else if j < i {
        assert(a[j] == b[j]);
        assert(eq_prefix(a, c, j));
        assert(eq_prefix(a, c, j) && a[j] < c[j]);
    } else {
        assert(eq_prefix(a, c, i));
        assert(eq_prefix(a, c, i) && a[i] < c[i]);
    }
}

} // verus!
