//! The order of tag names: lexicographic, by character code.
use vstd::prelude::*;

verus! {

/// Whether name `a` comes strictly before name `b`.
pub open spec fn name_lt(a: Seq<char>, b: Seq<char>) -> bool
    decreases a.len(),
{
    if a.len() == 0 {
        b.len() > 0
    } else if b.len() == 0 {
        false
    } else if a[0] < b[0] {
        true
    } else if a[0] == b[0] {
        name_lt(a.skip(1), b.skip(1))
    } else {
        false
    }
}

/// No name comes before itself.
pub proof fn lemma_lt_irreflexive(a: Seq<char>)
    ensures
        !name_lt(a, a),
    decreases a.len(),
{
    if a.len() > 0 {
        lemma_lt_irreflexive(a.skip(1));
    }
}

/// Of two names, one comes first or they are equal.
pub proof fn lemma_lt_total(a: Seq<char>, b: Seq<char>)
    ensures
        name_lt(a, b) || a == b || name_lt(b, a),
    decreases a.len(),
{
    if a.len() > 0 && b.len() > 0 && a[0] == b[0] {
        lemma_lt_total(a.skip(1), b.skip(1));
        if a.skip(1) == b.skip(1) {
            assert(a.len() == b.len());
            assert(a =~= b) by {
                assert forall|i: int| 0 <= i < a.len() implies a[i] == b[i] by {
                    if i > 0 {
                        assert(a[i] == a.skip(1)[i - 1]);
                        assert(b[i] == b.skip(1)[i - 1]);
                    }
                }
            }
        }
    } else if a.len() == 0 && b.len() == 0 {
        assert(a =~= b);
    }
}

/// The order is transitive.
pub proof fn lemma_lt_transitive(a: Seq<char>, b: Seq<char>, c: Seq<char>)
    requires
        name_lt(a, b),
        name_lt(b, c),
    ensures
        name_lt(a, c),
    decreases a.len(),
{
    if a.len() > 0 && b.len() > 0 && c.len() > 0 && a[0] == b[0] && b[0] == c[0] {
        lemma_lt_transitive(a.skip(1), b.skip(1), c.skip(1));
    }
}

/// Two names that agree on their first `i` characters are ordered as their rests are.
proof fn lemma_lt_common_prefix(a: Seq<char>, b: Seq<char>, i: int)
    requires
        0 <= i <= a.len(),
        i <= b.len(),
        forall|j: int| 0 <= j < i ==> a[j] == b[j],
    ensures
        name_lt(a, b) == name_lt(a.skip(i), b.skip(i)),
    decreases i,
{
    if i > 0 {
        lemma_lt_common_prefix(a.skip(1), b.skip(1), i - 1);
        assert(a.skip(1).skip(i - 1) =~= a.skip(i));
        assert(b.skip(1).skip(i - 1) =~= b.skip(i));
    } else {
        assert(a.skip(0) =~= a);
        assert(b.skip(0) =~= b);
    }
}

/// Whether name `a` comes strictly before name `b`.
pub fn name_less(a: &str, b: &str) -> (r: bool)
    ensures
        r == name_lt(a@, b@),
{
    let n = a.unicode_len();
    let m = b.unicode_len();
    let mut i: usize = 0;
    while i < n && i < m
        invariant
            i <= n,
            i <= m,
            n == a@.len(),
            m == b@.len(),
            forall|j: int| 0 <= j < i ==> a@[j] == b@[j],
        decreases n - i,
    {
        let x = a.get_char(i);
        let y = b.get_char(i);
        if x != y {
            proof {
                lemma_lt_common_prefix(a@, b@, i as int);
                assert(a@.skip(i as int)[0] == x);
                assert(b@.skip(i as int)[0] == y);
            }
            return x < y;
        }
        i = i + 1;
    }
    proof {
        lemma_lt_common_prefix(a@, b@, i as int);
    }
    i == n && i < m
}

} // verus!
