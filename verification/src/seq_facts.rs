//! Facts about membership and repetition in sequences, as the queues of the
//! scheduler need them.

use vstd::prelude::*;

verus! {

/// Two sequences have no element in common.
pub open spec fn apart<A>(a: Seq<A>, b: Seq<A>) -> bool {
    forall|x: A| !(a.contains(x) && #[trigger] b.contains(x))
}

/// What a sequence contains after a push, and when it stays free of repeats.
pub proof fn lemma_push<A>(a: Seq<A>, x: A)
    ensures
        forall|y: A| #[trigger] a.push(x).contains(y) <==> (a.contains(y) || y == x),
        a.no_duplicates() && !a.contains(x) ==> a.push(x).no_duplicates(),
{
    let b = a.push(x);
    assert forall|y: A| #[trigger] b.contains(y) <==> (a.contains(y) || y == x) by {
        if a.contains(y) {
            let i = choose|i: int| 0 <= i < a.len() && a[i] == y;
            assert(b[i] == y);
        }
        if y == x {
            assert(b[a.len() as int] == y);
        }
        if b.contains(y) {
            let i = choose|i: int| 0 <= i < b.len() && b[i] == y;
            if i < a.len() {
                assert(a[i] == y);
            }
        }
    }
    if a.no_duplicates() && !a.contains(x) {
        assert forall|i: int, j: int| 0 <= i < b.len() && 0 <= j < b.len() && i != j implies b[i]
            != b[j] by {
            if i < a.len() {
                assert(a[i] == b[i]);
            }
            if j < a.len() {
                assert(a[j] == b[j]);
            }
        }
    }
}

/// What a concatenation contains, and when it is free of repeats.
pub proof fn lemma_concat<A>(a: Seq<A>, b: Seq<A>)
    ensures
        forall|y: A| #[trigger] (a + b).contains(y) <==> (a.contains(y) || b.contains(y)),
        (a + b).no_duplicates() <==> (a.no_duplicates() && b.no_duplicates() && apart(a, b)),
{
    let c = a + b;
    assert forall|y: A| #[trigger] c.contains(y) <==> (a.contains(y) || b.contains(y)) by {
        if a.contains(y) {
            let i = choose|i: int| 0 <= i < a.len() && a[i] == y;
            assert(c[i] == y);
        }
        if b.contains(y) {
            let i = choose|i: int| 0 <= i < b.len() && b[i] == y;
            assert(c[a.len() + i] == y);
        }
        if c.contains(y) {
            let i = choose|i: int| 0 <= i < c.len() && c[i] == y;
            if i < a.len() {
                assert(a[i] == y);
            } else {
                assert(b[i - a.len()] == y);
            }
        }
    }
    if a.no_duplicates() && b.no_duplicates() && apart(a, b) {
        assert forall|i: int, j: int| 0 <= i < c.len() && 0 <= j < c.len() && i != j implies c[i]
            != c[j] by {
            if i < a.len() && j >= a.len() {
                assert(a.contains(a[i]));
                assert(b.contains(b[j - a.len()]));
            }
            if j < a.len() && i >= a.len() {
                assert(a.contains(a[j]));
                assert(b.contains(b[i - a.len()]));
            }
        }
    }
    if c.no_duplicates() {
        assert forall|i: int, j: int| 0 <= i < a.len() && 0 <= j < a.len() && i != j implies a[i]
            != a[j] by {
            assert(c[i] == a[i] && c[j] == a[j]);
        }
        assert forall|i: int, j: int| 0 <= i < b.len() && 0 <= j < b.len() && i != j implies b[i]
            != b[j] by {
            assert(c[a.len() + i] == b[i] && c[a.len() + j] == b[j]);
        }
        assert forall|x: A| !(a.contains(x) && #[trigger] b.contains(x)) by {
            if a.contains(x) && b.contains(x) {
                let i = choose|i: int| 0 <= i < a.len() && a[i] == x;
                let j = choose|j: int| 0 <= j < b.len() && b[j] == x;
                assert(c[i] == x && c[a.len() + j] == x);
            }
        }
    }
}

/// What a sequence contains after an insertion, and when it stays free of
/// repeats.
pub proof fn lemma_insert<A>(a: Seq<A>, at: int, x: A)
    requires
        0 <= at <= a.len(),
    ensures
        forall|y: A| #[trigger] a.insert(at, x).contains(y) <==> (a.contains(y) || y == x),
        a.no_duplicates() && !a.contains(x) ==> a.insert(at, x).no_duplicates(),
{
    let b = a.insert(at, x);
    a.insert_ensures(at, x);
    assert forall|y: A| #[trigger] b.contains(y) <==> (a.contains(y) || y == x) by {
        if a.contains(y) {
            let i = choose|i: int| 0 <= i < a.len() && a[i] == y;
            if i < at {
                assert(b[i] == y);
            } else {
                assert(b[i + 1] == a[i]);
            }
        }
        if y == x {
            assert(b[at] == y);
        }
        if b.contains(y) {
            let i = choose|i: int| 0 <= i < b.len() && b[i] == y;
            if i < at {
                assert(a[i] == y);
            } else if i > at {
                assert(b[(i - 1) + 1] == a[i - 1]);
            }
        }
    }
    if a.no_duplicates() && !a.contains(x) {
        assert forall|i: int, j: int| 0 <= i < b.len() && 0 <= j < b.len() && i != j implies b[i]
            != b[j] by {
            let oi = if i < at { i } else { i - 1 };
            let oj = if j < at { j } else { j - 1 };
            if i != at {
                assert(b[i] == a[oi]) by {
                    if i > at {
                        assert(b[(i - 1) + 1] == a[i - 1]);
                    }
                }
            }
            if j != at {
                assert(b[j] == a[oj]) by {
                    if j > at {
                        assert(b[(j - 1) + 1] == a[j - 1]);
                    }
                }
            }
        }
    }
}

/// What a sequence free of repeats contains after a removal.
pub proof fn lemma_remove<A>(a: Seq<A>, at: int)
    requires
        0 <= at < a.len(),
        a.no_duplicates(),
    ensures
        a.remove(at).no_duplicates(),
        forall|y: A| #[trigger] a.remove(at).contains(y) <==> (a.contains(y) && y != a[at]),
{
    let b = a.remove(at);
    a.remove_ensures(at);
    assert forall|i: int| 0 <= i < b.len() implies #[trigger] b[i] == a[if i < at { i } else { i + 1 }] by {}
    assert forall|i: int, j: int| 0 <= i < b.len() && 0 <= j < b.len() && i != j implies b[i]
        != b[j] by {}
    assert forall|y: A| #[trigger] b.contains(y) <==> (a.contains(y) && y != a[at]) by {
        if a.contains(y) && y != a[at] {
            let i = choose|i: int| 0 <= i < a.len() && a[i] == y;
            if i < at {
                assert(b[i] == y);
            } else {
                assert(b[i - 1] == a[(i - 1) + 1]);
            }
        }
        if b.contains(y) {
            let i = choose|i: int| 0 <= i < b.len() && b[i] == y;
            let o = if i < at { i } else { i + 1 };
            assert(a[o] == y);
        }
    }
}

/// What the two parts of a sequence free of repeats contain when it is cut in
/// two.
pub proof fn lemma_split<A>(a: Seq<A>, at: int)
    requires
        0 <= at <= a.len(),
        a.no_duplicates(),
    ensures
        a.take(at).no_duplicates(),
        a.skip(at).no_duplicates(),
        apart(a.take(at), a.skip(at)),
        forall|y: A| #[trigger] a.contains(y) <==> (a.take(at).contains(y) || a.skip(at).contains(y)),
{
    assert(a.take(at) + a.skip(at) =~= a);
    lemma_concat(a.take(at), a.skip(at));
}

} // verus!
