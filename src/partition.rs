use itertools::Itertools;
use vstd::prelude::*;

verus! {

/// The views of a sequence of byte vectors.
pub open spec fn views_of(v: Seq<Vec<u8>>) -> Seq<Seq<u8>> {
    v.map_values(|x: Vec<u8>| x@)
}

/// Every list of `g` joined with every list of `l`: entry `a * |l| + b` is
/// `g[a]` followed by `l[b]`.
pub open spec fn joined_products(g: Seq<Seq<u8>>, l: Seq<Seq<u8>>) -> Seq<Seq<u8>> {
    Seq::new(g.len() * l.len(), |k: int| g[k / (l.len() as int)] + l[k % (l.len() as int)])
}

/// The ways of writing `n` as a sum that `partition_single_int` lists, with
/// repeats: `n` itself, then for each `i` from `ceil(n / 2)` up to `n - 1`,
/// every listing of `n - i` joined with every listing of `i`. Zero, one and
/// two are listed as `[0]`, `[1]` and `[2], [1, 1]`.
pub open spec fn partitions(n: nat) -> Seq<Seq<u8>>
    decreases n, n + 1,
{
    if n == 0 {
        seq![seq![0u8]]
    } else if n == 1 {
        seq![seq![1u8]]
    } else if n == 2 {
        seq![seq![2u8], seq![1u8, 1u8]]
    } else {
        split_partitions(n, n)
    }
}

/// `[n]` followed by the joined listings for the splits `n - j` and `j`, for
/// each `j` from `ceil(n / 2)` up to `i - 1`.
pub open spec fn split_partitions(n: nat, i: nat) -> Seq<Seq<u8>>
    decreases n, i,
{
    if n < 3 || i <= (n + 1) / 2 || i > n {
        seq![seq![n as u8]]
    } else {
        split_partitions(n, (i - 1) as nat) + joined_products(
            partitions((n - (i - 1)) as nat),
            partitions((i - 1) as nat),
        )
    }
}

/// The sum of the parts of `s`.
pub open spec fn parts_sum(s: Seq<u8>) -> int
    decreases s.len(),
{
    if s.len() == 0 {
        0
    } else {
        parts_sum(s.drop_last()) + s.last() as int
    }
}

/// Whether every part of `s` is at least one.
pub open spec fn parts_positive(s: Seq<u8>) -> bool {
    forall|j: int| 0 <= j < s.len() ==> #[trigger] s[j] >= 1
}

/// Whether every listing in `ps` sums to `n`, and for `n >= 1` has only
/// positive parts.
pub open spec fn all_sum_to(ps: Seq<Seq<u8>>, n: nat) -> bool {
    forall|k: int|
        0 <= k < ps.len() ==> parts_sum(#[trigger] ps[k]) == n && (n >= 1 ==> parts_positive(ps[k]))
}

proof fn lemma_sum_single(x: u8)
    ensures
        parts_sum(seq![x]) == x as int,
{
    assert(seq![x].drop_last() =~= Seq::<u8>::empty());
    assert(parts_sum(seq![x].drop_last()) == 0);
}

proof fn lemma_sum_concat(a: Seq<u8>, b: Seq<u8>)
    ensures
        parts_sum(a + b) == parts_sum(a) + parts_sum(b),
    decreases b.len(),
{
    if b.len() == 0 {
        assert(a + b =~= a);
    } else {
        assert((a + b).drop_last() =~= a + b.drop_last());
        lemma_sum_concat(a, b.drop_last());
    }
}

/// Every listing of `partitions(n)` is a way of writing `n` as a sum: its
/// parts add up to `n`, and for `n >= 1` each part is at least one.
pub proof fn partitions_sum_to(n: nat)
    requires
        n <= 255,
    ensures
        all_sum_to(partitions(n), n),
    decreases n, n + 1,
{
    if n == 0 {
        lemma_sum_single(0u8);
    } else if n == 1 {
        lemma_sum_single(1u8);
    } else if n == 2 {
        lemma_sum_single(2u8);
        lemma_sum_single(1u8);
        lemma_sum_concat(seq![1u8], seq![1u8]);
        assert(seq![1u8] + seq![1u8] =~= seq![1u8, 1u8]);
    } else {
        split_partitions_sum_to(n, n);
    }
}

/// Every listing of `split_partitions(n, i)` sums to `n` with positive parts
/// (for `n >= 1`).
proof fn split_partitions_sum_to(n: nat, i: nat)
    requires
        n <= 255,
    ensures
        all_sum_to(split_partitions(n, i), n),
    decreases n, i,
{
    if n < 3 || i <= (n + 1) / 2 || i > n {
        lemma_sum_single(n as u8);
    } else {
        let j = (i - 1) as nat;
        let g = partitions((n - j) as nat);
        let l = partitions(j);
        split_partitions_sum_to(n, j);
        partitions_sum_to((n - j) as nat);
        partitions_sum_to(j);
        let joined = joined_products(g, l);
        assert forall|k: int| 0 <= k < joined.len() implies parts_sum(#[trigger] joined[k]) == n && (
        n >= 1 ==> parts_positive(joined[k])) by {
            let q = k / (l.len() as int);
            let r = k % (l.len() as int);
            assert(l.len() > 0) by (nonlinear_arith)
                requires
                    0 <= k < g.len() * l.len(),
            ;
            assert(0 <= q < g.len() && 0 <= r < l.len()) by (nonlinear_arith)
                requires
                    0 <= k < g.len() * l.len(),
                    l.len() > 0,
                    q == k / (l.len() as int),
                    r == k % (l.len() as int),
            {
                vstd::arithmetic::div_mod::lemma_fundamental_div_mod(k, l.len() as int);
            }
            lemma_sum_concat(g[q], l[r]);
            assert(joined[k] == g[q] + l[r]);
            assert forall|m: int| 0 <= m < joined[k].len() implies #[trigger] joined[k][m] >= 1 by {
                if m < g[q].len() {
                    assert(joined[k][m] == g[q][m]);
                } else {
                    assert(joined[k][m] == l[r][m - g[q].len()]);
                }
            }
        }
        let prev = split_partitions(n, j);
        assert(split_partitions(n, i) == prev + joined);
        assert forall|k: int| 0 <= k < (prev + joined).len() implies parts_sum(#[trigger] (prev
            + joined)[k]) == n && (n >= 1 ==> parts_positive((prev + joined)[k])) by {
            if k < prev.len() {
                assert((prev + joined)[k] == prev[k]);
            } else {
                assert((prev + joined)[k] == joined[k - prev.len()]);
            }
        }
    }
}

/// Relies on itertools::Itertools::cartesian_product: it yields each item of
/// the first iterator paired with each item of the second, the first one's
/// items in the outer order.
#[verifier::external_body]
fn cartesian_pairs(g: Vec<Vec<u8>>, l: Vec<Vec<u8>>) -> (r: Vec<(Vec<u8>, Vec<u8>)>)
    ensures
        r@.len() == g@.len() * l@.len(),
        forall|k: int|
            0 <= k < r@.len() ==> (#[trigger] r@[k]).0@ == g@[k / (l@.len() as int)]@ && r@[k].1@
                == l@[k % (l@.len() as int)]@,
{
    g.into_iter().cartesian_product(l).collect()
}

/// Lists ways of writing `n` as a sum of positive parts, with repeats:
/// exactly `partitions(n)`.
pub fn partition_single_int(n: u8) -> (r: Vec<Vec<u8>>)
    ensures
        views_of(r@) == partitions(n as nat),
    decreases n,
{
    if n == 0 {
        let mut r: Vec<Vec<u8>> = Vec::new();
        let mut one: Vec<u8> = Vec::new();
        one.push(0u8);
        r.push(one);
        assert(views_of(r@) =~= partitions(0));
        return r;
    }
    if n == 1 {
        let mut r: Vec<Vec<u8>> = Vec::new();
        let mut one: Vec<u8> = Vec::new();
        one.push(1u8);
        r.push(one);
        assert(views_of(r@) =~= partitions(1));
        return r;
    }
    if n == 2 {
        let mut r: Vec<Vec<u8>> = Vec::new();
        let mut two: Vec<u8> = Vec::new();
        two.push(2u8);
        r.push(two);
        let mut ones: Vec<u8> = Vec::new();
        ones.push(1u8);
        ones.push(1u8);
        r.push(ones);
        assert(views_of(r@) =~~= partitions(2));
        return r;
    }
    let mut sol: Vec<Vec<u8>> = Vec::new();
    let mut whole: Vec<u8> = Vec::new();
    whole.push(n);
    sol.push(whole);
    let start: u8 = n / 2 + n % 2;
    let mut i: u8 = start;
    assert(views_of(sol@) =~= split_partitions(n as nat, i as nat));
    while i < n
        invariant
            n >= 3,
            start == (n + 1) / 2,
            start <= i <= n,
            views_of(sol@) == split_partitions(n as nat, i as nat),
        decreases n - i,
    {
        let g_sol = partition_single_int(n - i);
        let l_sol = partition_single_int(i);
        let ghost g = views_of(g_sol@);
        let ghost l = views_of(l_sol@);
        let ghost before = views_of(sol@);
        let ghost g_vecs = g_sol@;
        let ghost l_vecs = l_sol@;
        let pairs = cartesian_pairs(g_sol, l_sol);
        assert forall|k: int| 0 <= k < pairs@.len() implies (#[trigger] pairs@[k]).0@ == g[k / (
        l.len() as int)] && pairs@[k].1@ == l[k % (l.len() as int)] by {
            assert(l.len() > 0) by (nonlinear_arith)
                requires
                    0 <= k < pairs@.len(),
                    pairs@.len() == g.len() * l.len(),
            ;
            let q = k / (l.len() as int);
            assert(0 <= q < g.len()) by (nonlinear_arith)
                requires
                    0 <= k < g.len() * l.len(),
                    l.len() > 0,
                    q == k / (l.len() as int),
            {
                vstd::arithmetic::div_mod::lemma_fundamental_div_mod(k, l.len() as int);
            }
            assert(g[k / (l.len() as int)] == g_vecs[k / (l.len() as int)]@);
            assert(l[k % (l.len() as int)] == l_vecs[k % (l.len() as int)]@);
        }
        let mut k: usize = 0;
        while k < pairs.len()
            invariant
                pairs@.len() == g.len() * l.len(),
                forall|k: int|
                    0 <= k < pairs@.len() ==> (#[trigger] pairs@[k]).0@ == g[k / (l.len() as int)]
                        && pairs@[k].1@ == l[k % (l.len() as int)],
                k <= pairs@.len(),
                views_of(sol@) == before + joined_products(g, l).take(k as int),
            decreases pairs@.len() - k,
        {
            let mut gv = pairs[k].0.clone();
            gv.extend_from_slice(pairs[k].1.as_slice());
            let ghost old_sol = sol@;
            sol.push(gv);
            assert(gv@ =~= joined_products(g, l)[k as int]);
            assert(views_of(sol@) =~= views_of(old_sol).push(gv@));
            assert(joined_products(g, l).take(k + 1) =~= joined_products(g, l).take(k as int).push(
                joined_products(g, l)[k as int],
            ));
            k = k + 1;
        }
        assert(joined_products(g, l).take(k as int) =~= joined_products(g, l));
        i = i + 1;
    }
    sol
}

} // verus!
