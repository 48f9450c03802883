use vstd::prelude::*;

verus! {

/// The pairs `(i, j)` with `i < j < n` whose first index is `i`, by
/// increasing `j`.
pub open spec fn row(i: nat, n: nat) -> Seq<(usize, usize)> {
    if i + 1 >= n {
        Seq::empty()
    } else {
        Seq::new((n - i - 1) as nat, |k: int| (i as usize, (i + 1 + k) as usize))
    }
}

/// The rows of the first `i` indices, one after the other.
pub open spec fn rows_before(i: nat, n: nat) -> Seq<(usize, usize)>
    decreases i,
{
    if i == 0 {
        Seq::empty()
    } else {
        rows_before((i - 1) as nat, n) + row((i - 1) as nat, n)
    }
}

/// All unordered pairs of indices below `n`, each written `(i, j)` with
/// `i < j`, in lexicographic order.
pub open spec fn unordered_pairs_of(n: nat) -> Seq<(usize, usize)> {
    rows_before(n, n)
}

/// `(a, b)` comes strictly before `(c, d)` in lexicographic order.
pub open spec fn lex_before(p: (usize, usize), q: (usize, usize)) -> bool {
    p.0 < q.0 || (p.0 == q.0 && p.1 < q.1)
}

proof fn lemma_rows_before(i: nat, n: nat)
    requires
        i <= n,
        n <= usize::MAX,
    ensures
        forall|k: int|
            0 <= k < rows_before(i, n).len() ==> {
                let p = #[trigger] rows_before(i, n)[k];
                p.0 < i && p.0 < p.1 && p.1 < n
            },
        forall|a: usize, b: usize| a < i && a < b && b < n ==> rows_before(i, n).contains((a, b)),
        forall|k1: int, k2: int|
            0 <= k1 < k2 < rows_before(i, n).len() ==> lex_before(
                #[trigger] rows_before(i, n)[k1],
                #[trigger] rows_before(i, n)[k2],
            ),
    decreases i,
{
    if i > 0 {
        let j = (i - 1) as nat;
        lemma_rows_before(j, n);
        let pre = rows_before(j, n);
        let r = row(j, n);
        let s = rows_before(i, n);
        assert(s == pre + r);
        assert forall|k: int| 0 <= k < s.len() implies {
            let p = #[trigger] s[k];
            p.0 < i && p.0 < p.1 && p.1 < n
        } by {
            if k >= pre.len() {
                assert(s[k] == r[k - pre.len()]);
            } else {
                assert(s[k] == pre[k]);
            }
        }
        assert forall|k1: int, k2: int| 0 <= k1 < k2 < s.len() implies lex_before(
            #[trigger] s[k1],
            #[trigger] s[k2],
        ) by {
            if k1 >= pre.len() {
                assert(s[k1] == r[k1 - pre.len()]);
                assert(s[k2] == r[k2 - pre.len()]);
            } else if k2 >= pre.len() {
                assert(s[k1] == pre[k1]);
                assert(s[k2] == r[k2 - pre.len()]);
            } else {
                assert(s[k1] == pre[k1]);
                assert(s[k2] == pre[k2]);
            }
        }
        assert forall|a: usize, b: usize| a < i && a < b && b < n implies s.contains((a, b)) by {
            if a < j {
                assert(pre.contains((a, b)));
                let k = choose|k: int| 0 <= k < pre.len() && pre[k] == (a, b);
                assert(s[k] == (a, b));
            } else {
                let k = b - j - 1;
                assert(r[k] == (a, b));
                assert(s[pre.len() + k] == (a, b));
            }
        }
    }
}

/// Every pair in the enumeration is ordered and in range, every such pair is
/// in it, and the enumeration is strictly increasing in lexicographic order,
/// so no pair is listed twice.
pub proof fn lemma_unordered_pairs_exact(n: usize)
    ensures
        forall|k: int|
            0 <= k < unordered_pairs_of(n as nat).len() ==> {
                let p = #[trigger] unordered_pairs_of(n as nat)[k];
                p.0 < p.1 && p.1 < n
            },
        forall|a: usize, b: usize| a < b && b < n ==> unordered_pairs_of(n as nat).contains((a, b)),
        forall|k1: int, k2: int|
            0 <= k1 < k2 < unordered_pairs_of(n as nat).len() ==> lex_before(
                #[trigger] unordered_pairs_of(n as nat)[k1],
                #[trigger] unordered_pairs_of(n as nat)[k2],
            ),
{
    lemma_rows_before(n as nat, n as nat);
}

proof fn lemma_rows_before_len(i: nat, n: nat)
    requires
        i <= n,
    ensures
        2 * rows_before(i, n).len() == i * (2 * n - i - 1),
    decreases i,
{
    if i > 0 {
        let j = (i - 1) as nat;
        lemma_rows_before_len(j, n);
        assert(row(j, n).len() == n - i);
        assert(2 * rows_before(i, n).len() == j * (2 * n - j - 1) + 2 * (n - i));
        assert(j * (2 * n - j - 1) + 2 * (n - i) == i * (2 * n - i - 1)) by (nonlinear_arith)
            requires
                j + 1 == i,
                i <= n,
        ;
    } else {
        assert(i * (2 * n - i - 1) == 0) by (nonlinear_arith)
            requires
                i == 0,
        ;
    }
}

/// There are `n * (n - 1) / 2` unordered pairs of indices below `n`.
pub proof fn lemma_unordered_pairs_count(n: usize)
    ensures
        2 * unordered_pairs_of(n as nat).len() == n * (n - 1),
{
    lemma_rows_before_len(n as nat, n as nat);
    if n > 0 {
        assert(n * (2 * n - n - 1) == n * (n - 1));
    }
}

/// With fewer than two indices there is no pair at all.
pub proof fn lemma_no_pairs_below_two(n: usize)
    requires
        n < 2,
    ensures
        unordered_pairs_of(n as nat).len() == 0,
{
    lemma_unordered_pairs_exact(n);
    if unordered_pairs_of(n as nat).len() > 0 {
        let p = unordered_pairs_of(n as nat)[0];
        assert(p.0 < p.1 && p.1 < n);
    }
}

/// Lists every unordered pair of indices below `n`, first index outermost.
pub fn unordered_pairs(n: usize) -> (r: Vec<(usize, usize)>)
    ensures
        r@ == unordered_pairs_of(n as nat),
{
    let mut r: Vec<(usize, usize)> = Vec::new();
    let mut i: usize = 0;
    while i < n
        invariant
            i <= n,
            r@ == rows_before(i as nat, n as nat),
        decreases n - i,
    {
        let mut j: usize = i + 1;
        while j < n
            invariant
                i < n,
                i + 1 <= j <= n,
                r@ == rows_before(i as nat, n as nat) + row(i as nat, n as nat).subrange(
                    0,
                    j - i - 1,
                ),
            decreases n - j,
        {
            r.push((i, j));
            assert(row(i as nat, n as nat).subrange(0, j - i) =~= row(
                i as nat,
                n as nat,
            ).subrange(0, j - i - 1).push((i, j)));
            j = j + 1;
        }
        assert(row(i as nat, n as nat).subrange(0, n - i - 1) =~= row(i as nat, n as nat));
        i = i + 1;
    }
    r
}

/// Tests the unordered pairs `(i, j)`, `i < j < n`, in lexicographic order
/// and returns the first that `holds` accepts. `None` means every pair was
/// tested and refused; with `n < 2` there is nothing to test.
pub fn first_pair<F: Fn(usize, usize) -> bool>(n: usize, holds: F) -> (r: Option<(usize, usize)>)
    requires
        forall|i: usize, j: usize| i < j < n ==> holds.requires((i, j)),
    ensures
        match r {
            Some(p) => {
                &&& p.0 < p.1 < n
                &&& holds.ensures((p.0, p.1), true)
                &&& forall|a: usize, b: usize|
                    a < b < n && lex_before((a, b), p) ==> holds.ensures((a, b), false)
            },
            None => forall|a: usize, b: usize| a < b < n ==> holds.ensures((a, b), false),
        },
{
    let mut i: usize = 0;
    while i < n
        invariant
            i <= n,
            forall|i: usize, j: usize| i < j < n ==> holds.requires((i, j)),
            forall|a: usize, b: usize| a < i && a < b < n ==> holds.ensures((a, b), false),
        decreases n - i,
    {
        let mut j: usize = i + 1;
        while j < n
            invariant
                i < n,
                i + 1 <= j <= n,
                forall|i: usize, j: usize| i < j < n ==> holds.requires((i, j)),
                forall|a: usize, b: usize| a < i && a < b < n ==> holds.ensures((a, b), false),
                forall|b: usize| i < b < j ==> holds.ensures((i, b), false),
            decreases n - j,
        {
            if holds(i, j) {
                return Some((i, j));
            }
            j = j + 1;
        }
        i = i + 1;
    }
    None
}

} // verus!
