//! The byte-wise order on texts, by which resolved paths are sorted.

use vstd::prelude::*;

verus! {

/// `a` comes strictly before `b` in the lexicographic order on bytes: at the
/// first place where they differ `a` has the smaller byte, or `a` ends there
/// and `b` goes on.
pub open spec fn bytes_lt(a: Seq<u8>, b: Seq<u8>) -> bool
    decreases a.len(),
{
    if b.len() == 0 {
        false
    } else if a.len() == 0 {
        true
    } else if a[0] != b[0] {
        a[0] < b[0]
    } else {
        bytes_lt(a.drop_first(), b.drop_first())
    }
}

/// Each element comes strictly before every later one.
pub open spec fn strictly_sorted(items: Seq<Seq<u8>>) -> bool {
    forall|i: int, j: int| 0 <= i < j < items.len() ==> bytes_lt(items[i], items[j])
}

/// How one text stands to another in the byte-wise order.
#[derive(Debug, Clone, Copy, PartialEq, Eq, Structural)]
pub enum Position {
    Before,
    Same,
    After,
}

/// Nothing comes before itself.
pub proof fn lemma_lt_irreflexive(a: Seq<u8>)
    ensures
        !bytes_lt(a, a),
    decreases a.len(),
{
    if a.len() > 0 {
        lemma_lt_irreflexive(a.drop_first());
    }
}

/// The order is transitive.
pub proof fn lemma_lt_transitive(a: Seq<u8>, b: Seq<u8>, c: Seq<u8>)
    requires
        bytes_lt(a, b),
        bytes_lt(b, c),
    ensures
        bytes_lt(a, c),
    decreases a.len(),
{
    if a.len() > 0 && a[0] == b[0] && b[0] == c[0] {
        lemma_lt_transitive(a.drop_first(), b.drop_first(), c.drop_first());
    }
}

/// Dropping a common prefix does not change how two texts compare.
pub proof fn lemma_lt_skip(a: Seq<u8>, b: Seq<u8>, k: int)
    requires
        0 <= k <= a.len(),
        k <= b.len(),
        a.subrange(0, k) == b.subrange(0, k),
    ensures
        bytes_lt(a, b) == bytes_lt(a.skip(k), b.skip(k)),
    decreases k,
{
    if k > 0 {
        assert(a[0] == a.subrange(0, k)[0]);
        assert(b[0] == b.subrange(0, k)[0]);
        assert(a.drop_first().subrange(0, k - 1) == a.subrange(0, k).drop_first());
        assert(b.drop_first().subrange(0, k - 1) == b.subrange(0, k).drop_first());
        lemma_lt_skip(a.drop_first(), b.drop_first(), k - 1);
        assert(a.drop_first().skip(k - 1) == a.skip(k));
        assert(b.drop_first().skip(k - 1) == b.skip(k));
    } else {
        assert(a.skip(0) == a);
        assert(b.skip(0) == b);
    }
}

/// Compares two texts byte by byte.
pub fn compare_bytes(a: &[u8], b: &[u8]) -> (r: Position)
    ensures
        r == Position::Before <==> bytes_lt(a@, b@),
        r == Position::Same <==> a@ == b@,
        r == Position::After <==> bytes_lt(b@, a@),
{
    let n = a.len();
    let m = b.len();
    let mut i: usize = 0;
    while i < n && i < m && a[i] == b[i]
        invariant
            n == a@.len(),
            m == b@.len(),
            i <= n,
            i <= m,
            a@.subrange(0, i as int) == b@.subrange(0, i as int),
        decreases n - i,
    {
        assert(a@.subrange(0, i + 1) == a@.subrange(0, i as int).push(a@[i as int]));
        assert(b@.subrange(0, i + 1) == b@.subrange(0, i as int).push(b@[i as int]));
        i = i + 1;
    }
    proof {
        lemma_lt_skip(a@, b@, i as int);
        lemma_lt_skip(b@, a@, i as int);
        lemma_lt_irreflexive(a@);
        if i == n && i == m {
            assert(a@ == a@.subrange(0, i as int));
            assert(b@ == b@.subrange(0, i as int));
        }
        if i < n {
            assert(a@.skip(i as int)[0] == a@[i as int]);
        }
        if i < m {
            assert(b@.skip(i as int)[0] == b@[i as int]);
        }
        if a@ == b@ {
            assert(n == m);
        }
    }
    if i == n && i == m {
        Position::Same
    } else if i == n {
        Position::Before
    } else if i == m {
        Position::After
    } else if a[i] < b[i] {
        Position::Before
    } else {
        Position::After
    }
}

/// A strictly sorted list is fixed by what it holds: two such lists with the
/// same elements are the same list.
pub proof fn lemma_sorted_unique(a: Seq<Seq<u8>>, b: Seq<Seq<u8>>)
    requires
        strictly_sorted(a),
        strictly_sorted(b),
        forall|p: Seq<u8>| a.contains(p) <==> b.contains(p),
    ensures
        a == b,
    decreases a.len(),
{
    if a.len() == 0 {
        if b.len() > 0 {
            assert(b.contains(b[0]));
        }
        assert(a =~= b);
    } else if b.len() == 0 {
        assert(a.contains(a[0]));
    } else {
        assert(a.contains(a[0]));
        assert(b.contains(b[0]));
        let i = choose|i: int| 0 <= i < b.len() && b[i] == a[0];
        let j = choose|j: int| 0 <= j < a.len() && a[j] == b[0];
        lemma_lt_irreflexive(a[0]);
        if i > 0 && j > 0 {
            lemma_lt_transitive(a[0], a[j], b[i]);
        }
        if i > 0 && j == 0 {
            assert(bytes_lt(b[0], b[i]));
        }
        assert(a[0] == b[0]);
        let ta = a.drop_first();
        let tb = b.drop_first();
        assert forall|p: Seq<u8>| ta.contains(p) <==> tb.contains(p) by {
            lemma_lt_irreflexive(p);
            if ta.contains(p) {
                let k = choose|k: int| 0 <= k < ta.len() && ta[k] == p;
                assert(a[k + 1] == p);
                assert(a.contains(p));
                let l = choose|l: int| 0 <= l < b.len() && b[l] == p;
                assert(bytes_lt(a[0], a[k + 1]));
                assert(l > 0);
                assert(tb[l - 1] == p);
            }
            if tb.contains(p) {
                let k = choose|k: int| 0 <= k < tb.len() && tb[k] == p;
                assert(b[k + 1] == p);
                assert(b.contains(p));
                let l = choose|l: int| 0 <= l < a.len() && a[l] == p;
                assert(bytes_lt(b[0], b[k + 1]));
                assert(l > 0);
                assert(ta[l - 1] == p);
            }
        }
        assert(strictly_sorted(ta)) by {
            assert forall|x: int, y: int| 0 <= x < y < ta.len() implies bytes_lt(ta[x], ta[y]) by {
                assert(bytes_lt(a[x + 1], a[y + 1]));
            }
        }
        assert(strictly_sorted(tb)) by {
            assert forall|x: int, y: int| 0 <= x < y < tb.len() implies bytes_lt(tb[x], tb[y]) by {
                assert(bytes_lt(b[x + 1], b[y + 1]));
            }
        }
        lemma_sorted_unique(ta, tb);
        assert(a =~= seq![a[0]] + ta);
        assert(b =~= seq![b[0]] + tb);
    }
}

} // verus!
