//! Edit distance between two strings, counted over characters.
use vstd::prelude::*;
use crate::text::chars_of;

verus! {

pub open spec fn min_nat(x: nat, y: nat) -> nat {
    if x <= y { x } else { y }
}

/// Levenshtein distance: the least number of single-character insertions,
/// deletions and substitutions that turn `a` into `b`.
pub open spec fn edit_distance(a: Seq<char>, b: Seq<char>) -> nat
    decreases a.len() + b.len(),
{
    if a.len() == 0 {
        b.len()
    } else if b.len() == 0 {
        a.len()
    } else if a.last() == b.last() {
        edit_distance(a.drop_last(), b.drop_last())
    } else {
        1 + min_nat(
            min_nat(edit_distance(a.drop_last(), b), edit_distance(a, b.drop_last())),
            edit_distance(a.drop_last(), b.drop_last()),
        )
    }
}

/// The distance never exceeds the longer of the two lengths.
pub proof fn lemma_distance_bound(a: Seq<char>, b: Seq<char>)
    ensures
        edit_distance(a, b) <= if a.len() >= b.len() { a.len() } else { b.len() },
    decreases a.len() + b.len(),
{
    if a.len() > 0 && b.len() > 0 {
        lemma_distance_bound(a.drop_last(), b.drop_last());
    }
}

/// Edit distance is symmetric.
pub proof fn lemma_distance_symmetric(a: Seq<char>, b: Seq<char>)
    ensures
        edit_distance(a, b) == edit_distance(b, a),
    decreases a.len() + b.len(),
{
    if a.len() > 0 && b.len() > 0 {
        lemma_distance_symmetric(a.drop_last(), b.drop_last());
        if a.last() != b.last() {
            lemma_distance_symmetric(a.drop_last(), b);
            lemma_distance_symmetric(a, b.drop_last());
        }
    }
}

/// The distance is zero exactly when the two strings are identical, and the
/// distance from the empty string is the length of the other one.
pub proof fn lemma_distance_zero_iff_equal(a: Seq<char>, b: Seq<char>)
    ensures
        edit_distance(a, b) == 0 <==> a == b,
        edit_distance(Seq::empty(), b) == b.len(),
        edit_distance(a, Seq::empty()) == a.len(),
    decreases a.len() + b.len(),
{
    if a.len() > 0 && b.len() > 0 {
        lemma_distance_zero_iff_equal(a.drop_last(), b.drop_last());
        if a.last() == b.last() && a.drop_last() == b.drop_last() {
            assert(a =~= a.drop_last().push(a.last()));
            assert(b =~= b.drop_last().push(b.last()));
        }
        if a == b {
            assert(a.drop_last() == b.drop_last());
        }
    } else if a.len() == 0 && b.len() == 0 {
        assert(a =~= b);
    }
}

proof fn lemma_prefix_step(a: Seq<char>, b: Seq<char>, i: int, j: int)
    requires
        0 <= i < a.len(),
        0 <= j < b.len(),
    ensures
        edit_distance(a.take(i + 1), b.take(j + 1)) == if a[i] == b[j] {
            edit_distance(a.take(i), b.take(j))
        } else {
            1 + min_nat(
                min_nat(
                    edit_distance(a.take(i), b.take(j + 1)),
                    edit_distance(a.take(i + 1), b.take(j)),
                ),
                edit_distance(a.take(i), b.take(j)),
            )
        },
{
    assert(a.take(i + 1).drop_last() =~= a.take(i));
    assert(b.take(j + 1).drop_last() =~= b.take(j));
}

/// Edit distance between `me` and `t`, over their characters.
pub fn lev_distance(me: &str, t: &str) -> (r: usize)
    ensures
        r == edit_distance(me@, t@),
{
    let a = chars_of(me);
    let b = chars_of(t);
    let m = a.len();
    let n = b.len();
    if m == 0 {
        return n;
    }
    if n == 0 {
        return m;
    }
    let ghost sa = a@;
    let ghost sb = b@;
    let mut dcol: Vec<usize> = Vec::new();
    dcol.push(0);
    let mut k: usize = 0;
    while k < n
        invariant
            n == sb.len(),
            k <= n,
            dcol@.len() == k + 1,
            forall|x: int| 0 <= x <= k ==> dcol@[x] == x,
        decreases n - k,
    {
        dcol.push(k + 1);
        k = k + 1;
    }
    proof {
        assert forall|x: int| 0 <= x <= n implies dcol@[x] == edit_distance(
            sa.take(0),
            sb.take(x),
        ) by {}
    }
    let mut i: usize = 0;
    while i < m
        invariant
            sa == a@,
            sb == b@,
            m == sa.len(),
            n == sb.len(),
            0 < m,
            0 < n,
            i <= m,
            dcol@.len() == n + 1,
            forall|x: int| 0 <= x <= n ==> dcol@[x] == edit_distance(sa.take(i as int), sb.take(x)),
        decreases m - i,
    {
        let mut current: usize = dcol[0];
        assert(current == i);
        dcol.set(0, i + 1);
        assert(sa.take(i + 1).len() == i + 1);
        let sc = a[i];
        let mut j: usize = 0;
        while j < n
            invariant
                sa == a@,
                sb == b@,
                m == sa.len(),
                n == sb.len(),
                i < m,
                j <= n,
                sc == sa[i as int],
                dcol@.len() == n + 1,
                current == edit_distance(sa.take(i as int), sb.take(j as int)),
                forall|x: int|
                    0 <= x <= j ==> dcol@[x] == edit_distance(sa.take(i + 1), sb.take(x)),
                forall|x: int|
                    j < x <= n ==> dcol@[x] == edit_distance(sa.take(i as int), sb.take(x)),
            decreases n - j,
        {
            proof {
                lemma_prefix_step(sa, sb, i as int, j as int);
                lemma_distance_bound(sa.take(i as int), sb.take(j as int));
                lemma_distance_bound(sa.take(i as int), sb.take(j + 1));
                lemma_distance_bound(sa.take(i + 1), sb.take(j as int));
            }
            let next = dcol[j + 1];
            let tc = b[j];
            if sc == tc {
                dcol.set(j + 1, current);
            } else {
                let mut best = if current <= next { current } else { next };
                if dcol[j] < best {
                    best = dcol[j];
                }
                dcol.set(j + 1, best + 1);
            }
            current = next;
            j = j + 1;
        }
        i = i + 1;
    }
    assert(sa.take(m as int) =~= sa);
    assert(sb.take(n as int) =~= sb);
    dcol[n]
}

} // verus!
