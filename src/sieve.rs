use vstd::prelude::*;

verus! {

/// The bound used when no upper bound is asked for.
pub const DEFAULT_PRIMES_TILL: usize = 12_345;

/// Whether `n` is a prime number: at least two, with no divisor strictly
/// between one and itself.
pub open spec fn is_prime(n: int) -> bool {
    n >= 2 && forall|d: int| 1 < d < n ==> #[trigger] (n % d) != 0
}

/// `s` is exactly the primes `p` with `lo <= p <= hi`, in strictly
/// increasing order.
pub open spec fn lists_primes_between(s: Seq<usize>, lo: int, hi: int) -> bool {
    &&& forall|k: int| 0 <= k < s.len() ==> lo <= #[trigger] s[k] <= hi && is_prime(s[k] as int)
    &&& forall|n: int| lo <= n <= hi && is_prime(n) ==> s.contains(n as usize)
    &&& forall|a: int, b: int| 0 <= a < b < s.len() ==> s[a] < s[b]
}

/// A listing of primes never holds zero or one, whatever its bounds.
pub proof fn primes_exclude_zero_and_one(s: Seq<usize>, lo: int, hi: int)
    requires
        lists_primes_between(s, lo, hi),
    ensures
        !s.contains(0),
        !s.contains(1),
{
    if s.contains(0) {
        let k = choose|k: int| 0 <= k < s.len() && s[k] == 0;
        assert(is_prime(s[k] as int));
    }
    if s.contains(1) {
        let k = choose|k: int| 0 <= k < s.len() && s[k] == 1;
        assert(is_prime(s[k] as int));
    }
}

/// Two strictly increasing sequences that hold the same values are equal.
proof fn lemma_increasing_same_values(s: Seq<usize>, t: Seq<usize>)
    requires
        forall|a: int, b: int| 0 <= a < b < s.len() ==> s[a] < s[b],
        forall|a: int, b: int| 0 <= a < b < t.len() ==> t[a] < t[b],
        forall|x: usize| s.contains(x) <==> t.contains(x),
    ensures
        s == t,
{
    assert forall|k: int| 0 <= k < s.len() && 0 <= k < t.len() implies s[k] == t[k] by {
        lemma_same_prefix(s, t, k);
    }
    lemma_not_longer(s, t);
    lemma_not_longer(t, s);
    assert(s =~= t);
}

/// Two strictly increasing sequences that hold the same values agree at
/// every position both have.
proof fn lemma_same_prefix(s: Seq<usize>, t: Seq<usize>, k: int)
    requires
        forall|a: int, b: int| 0 <= a < b < s.len() ==> s[a] < s[b],
        forall|a: int, b: int| 0 <= a < b < t.len() ==> t[a] < t[b],
        forall|x: usize| s.contains(x) <==> t.contains(x),
        0 <= k < s.len(),
        0 <= k < t.len(),
    ensures
        s[k] == t[k],
    decreases k,
{
    if k > 0 {
        lemma_same_prefix(s, t, k - 1);
    }
    assert forall|j: int| 0 <= j < k implies s[j] == t[j] by {
        lemma_same_prefix(s, t, j);
    }
    if s[k] < t[k] {
        assert(s.contains(s[k]));
        let j = choose|j: int| 0 <= j < t.len() && t[j] == s[k];
        if j < k {
            assert(t[j] == s[j]);
        } else if j > k {
            assert(t[k] < t[j]);
        }
    } else if t[k] < s[k] {
        assert(t.contains(t[k]));
        let j = choose|j: int| 0 <= j < s.len() && s[j] == t[k];
        if j < k {
            assert(s[j] == t[j]);
        } else if j > k {
            assert(s[k] < s[j]);
        }
    }
}

/// A strictly increasing sequence is no longer than another that holds the
/// same values and agrees with it on their common positions.
proof fn lemma_not_longer(s: Seq<usize>, t: Seq<usize>)
    requires
        forall|a: int, b: int| 0 <= a < b < s.len() ==> s[a] < s[b],
        forall|x: usize| s.contains(x) <==> t.contains(x),
        forall|k: int| 0 <= k < s.len() && 0 <= k < t.len() ==> s[k] == t[k],
    ensures
        s.len() <= t.len(),
{
    if s.len() > t.len() {
        let m = t.len() as int;
        assert(s.contains(s[m]));
        let j = choose|j: int| 0 <= j < t.len() && t[j] == s[m];
        assert(s[j] == t[j]);
        assert(s[j] < s[m]);
    }
}

/// Two listings of the primes between the same bounds are the same sequence:
/// any two functions that list them (in a vector of bytes or of bits) agree.
pub proof fn primes_listing_is_unique(s: Seq<usize>, t: Seq<usize>, lo: int, hi: int)
    requires
        lists_primes_between(s, lo, hi),
        lists_primes_between(t, lo, hi),
    ensures
        s == t,
{
    assert forall|x: usize| s.contains(x) <==> t.contains(x) by {
        if s.contains(x) {
            let k = choose|k: int| 0 <= k < s.len() && s[k] == x;
            assert(lo <= s[k] <= hi && is_prime(s[k] as int));
        }
        if t.contains(x) {
            let k = choose|k: int| 0 <= k < t.len() && t[k] == x;
            assert(lo <= t[k] <= hi && is_prime(t[k] as int));
        }
    }
    lemma_increasing_same_values(s, t);
}

/// No `d` with `2 <= d < bound` and `d * d <= k` divides `k`.
pub open spec fn no_small_factor(k: int, bound: int) -> bool {
    forall|d: int| 2 <= d < bound && d * d <= k ==> #[trigger] (k % d) != 0
}

/// A number of at least two that is not prime has a divisor `d >= 2` with
/// `d * d <= k`.
proof fn lemma_composite_has_small_factor(k: int)
    requires
        k >= 2,
        !is_prime(k),
    ensures
        exists|d: int| 2 <= d && d * d <= k && #[trigger] (k % d) == 0,
{
    let d = choose|d: int| 1 < d < k && #[trigger] (k % d) == 0;
    let e = k / d;
    assert(k == d * e) by (nonlinear_arith)
        requires
            k % d == 0,
            d > 0,
            e == k / d,
    ;
    assert(e >= 2) by (nonlinear_arith)
        requires
            k == d * e,
            d < k,
            d > 1,
    ;
    assert(k % e == 0) by (nonlinear_arith)
        requires
            k == d * e,
            e > 0,
    ;
    if d <= e {
        assert(d * d <= k) by (nonlinear_arith)
            requires
                k == d * e,
                d <= e,
                d > 0,
        ;
    } else {
        assert(e * e <= k) by (nonlinear_arith)
            requires
                k == d * e,
                e < d,
                e > 0,
        ;
    }
}

/// Below `bound * bound`, having no small factor under `bound` is primality.
pub(crate) proof fn lemma_no_small_factor_is_prime(k: int, bound: int)
    requires
        k >= 2,
        k < bound * bound,
        bound >= 2,
    ensures
        no_small_factor(k, bound) <==> is_prime(k),
{
    if !is_prime(k) {
        lemma_composite_has_small_factor(k);
        let d = choose|d: int| 2 <= d && d * d <= k && #[trigger] (k % d) == 0;
        if d >= bound {
            assert(d * d >= bound * bound) by (nonlinear_arith)
                requires
                    d >= bound,
                    bound >= 2,
            ;
        }
        assert(!no_small_factor(k, bound));
    } else {
        assert forall|d: int| 2 <= d < bound && d * d <= k implies #[trigger] (k % d) != 0 by {
            if d >= k {
                assert(d * d > k) by (nonlinear_arith)
                    requires
                        d >= k,
                        k >= 2,
                ;
            }
        }
    }
}

/// A multiple of a number with a small factor has that factor too.
pub(crate) proof fn lemma_factor_passes_on(k: int, i: int, q: int)
    requires
        2 <= q,
        q * q <= i,
        i % q == 0,
        i * i <= k,
        k % i == 0,
        i >= 2,
    ensures
        q * q <= k,
        k % q == 0,
{
    assert(q * q <= k) by (nonlinear_arith)
        requires
            q * q <= i,
            i * i <= k,
            i >= 2,
            q >= 2,
    ;
    vstd::arithmetic::div_mod::lemma_mod_mod(k, i, q);
    assert(k % q == 0) by (nonlinear_arith)
        requires
            k % i == 0,
            i % q == 0,
            q > 0,
            i > 0,
    {
        let a = k / i;
        let b = i / q;
        assert(k == i * a);
        assert(i == q * b);
        assert(k == q * (b * a));
        vstd::arithmetic::div_mod::lemma_mod_multiples_basic(b * a, q);
    }
}

/// No multiple of `i` lies strictly between a multiple `index` and
/// `index + i`.
pub(crate) proof fn lemma_no_multiple_between(index: int, k: int, i: int)
    requires
        i > 0,
        index % i == 0,
        k % i == 0,
    ensures
        k <= index || k >= index + i,
{
    let a = index / i;
    let b = k / i;
    vstd::arithmetic::div_mod::lemma_fundamental_div_mod(index, i);
    vstd::arithmetic::div_mod::lemma_fundamental_div_mod(k, i);
    assert(index == i * a && k == i * b);
    if b <= a {
        assert(k <= index) by (nonlinear_arith)
            requires
                b <= a,
                i > 0,
                index == i * a,
                k == i * b,
        ;
    } else {
        assert(k >= index + i) by (nonlinear_arith)
            requires
                b >= a + 1,
                i > 0,
                index == i * a,
                k == i * b,
        ;
    }
}

/// Marks every number from zero to `max` whether it is prime, by the sieve of
/// Eratosthenes: for each `i` with `i * i <= max` still marked prime, its
/// multiples from `i * i` on are marked composite.
fn sieve_marks(max: usize) -> (marks: Vec<bool>)
    requires
        max < usize::MAX,
    ensures
        marks@.len() == max + 1,
        forall|k: int| 0 <= k <= max ==> #[trigger] marks@[k] == is_prime(k),
{
    let mut marks: Vec<bool> = vec![true; max + 1];
    marks.set(0, false);
    if max >= 1 {
        marks.set(1, false);
    }
    let mut i: usize = 2;
    while i <= max / i
        invariant
            max < usize::MAX,
            2 <= i <= max + 2,
            marks@.len() == max + 1,
            forall|k: int|
                0 <= k <= max ==> #[trigger] marks@[k] == (k >= 2 && no_small_factor(k, i as int)),
        decreases max + 2 - i,
    {
        assert(i * i <= max && i < max) by (nonlinear_arith)
            requires
                i <= max / i,
                i >= 2,
        ;
        if marks[i] {
            let mut index: usize = i * i;
            let ghost start = index as int;
            proof {
                vstd::arithmetic::div_mod::lemma_mod_multiples_basic(i as int, i as int);
            }
            while index <= max
                invariant
                    max < usize::MAX,
                    2 <= i < max,
                    i * i <= max,
                    start == i * i,
                    start <= index <= max + 1,
                    index % i == 0 || index == max + 1,
                    marks@.len() == max + 1,
                    forall|k: int|
                        0 <= k <= max ==> #[trigger] marks@[k] == (k >= 2 && no_small_factor(
                            k,
                            i as int,
                        ) && !(k % (i as int) == 0 && start <= k < index)),
                decreases max + 1 - index,
            {
                marks.set(index, false);
                proof {
                    assert forall|k: int| #[trigger] (k % (i as int)) == 0 implies k <= index || k
                        >= index + i by {
                        lemma_no_multiple_between(index as int, k, i as int);
                    }
                }
                if index > max - i {
                    index = max + 1;
                } else {
                    proof {
                        vstd::arithmetic::div_mod::lemma_mod_add_multiples_vanish(index as int, i as int);
                    }
                    index = index + i;
                }
            }
            proof {
                assert forall|k: int| 0 <= k <= max implies #[trigger] marks@[k] == (k >= 2
                    && no_small_factor(k, i + 1)) by {
                    if k >= 2 && i * i <= k && k % (i as int) == 0 {
                        assert(!no_small_factor(k, i + 1));
                    }
                }
            }
        } else {
            proof {
                assert(!no_small_factor(i as int, i as int));
                let q = choose|q: int| 2 <= q < i && q * q <= i && #[trigger] ((i as int) % q) != 0 == false;
                assert forall|k: int| 0 <= k <= max implies #[trigger] marks@[k] == (k >= 2
                    && no_small_factor(k, i + 1)) by {
                    if k >= 2 && i * i <= k && k % (i as int) == 0 {
                        lemma_factor_passes_on(k, i as int, q);
                        assert(!no_small_factor(k, i as int));
                    }
                }
            }
        }
        i = i + 1;
    }
    proof {
        assert(max < i * i) by (nonlinear_arith)
            requires
                i > max / i,
                i >= 2,
        ;
        assert forall|k: int| 0 <= k <= max implies #[trigger] marks@[k] == is_prime(k) by {
            if k >= 2 {
                lemma_no_small_factor_is_prime(k, i as int);
            }
        }
    }
    marks
}

/// The lower bound that an optional minimum stands for: the minimum itself,
/// or zero when none is given.
pub open spec fn lower_bound(min: Option<usize>) -> int {
    match min {
        Some(m) => m as int,
        None => 0,
    }
}

/// The primes from `min` (zero when `None`) to `max`, both inclusive, in
/// increasing order. A minimum above `max` gives no primes.
pub fn prime_sieve(min: Option<usize>, max: usize) -> (r: Vec<usize>)
    requires
        max < usize::MAX,
    ensures
        lists_primes_between(r@, lower_bound(min), max as int),
{
    let marks = sieve_marks(max);
    let lo: usize = match min {
        Some(m) => m,
        None => 0,
    };
    let mut result: Vec<usize> = Vec::new();
    let mut j: usize = lo;
    while j <= max
        invariant
            max < usize::MAX,
            lo == lower_bound(min),
            lo <= j,
            j <= max + 1 || j == lo,
            marks@.len() == max + 1,
            forall|k: int| 0 <= k <= max ==> #[trigger] marks@[k] == is_prime(k),
            forall|k: int| 0 <= k < result@.len() ==> lo <= #[trigger] result@[k] < j && is_prime(result@[k] as int),
            forall|n: int| lo <= n < j && n <= max && is_prime(n) ==> result@.contains(n as usize),
            forall|a: int, b: int| 0 <= a < b < result@.len() ==> result@[a] < result@[b],
        decreases max + 1 - j,
    {
        if marks[j] {
            proof {
                assert forall|n: int| lo <= n < j + 1 && n <= max && is_prime(n) implies result@.push(j).contains(n as usize) by {
                    if n == j {
                        assert(result@.push(j)[result@.len() as int] == j);
                    } else {
                        let w = choose|w: int| 0 <= w < result@.len() && result@[w] == n as usize;
                        assert(result@.push(j)[w] == n as usize);
                    }
                }
            }
            result.push(j);
        } else {
            proof {
                assert forall|n: int| lo <= n < j + 1 && n <= max && is_prime(n) implies result@.contains(n as usize) by {
                    assert(n != j);
                }
            }
        }
        j = j + 1;
    }
    result
}

/// Why no primes were searched for.
#[derive(Debug, Clone, Copy, PartialEq, Eq, Structural)]
pub enum RangeError {
    /// The minimum is larger than the maximum.
    MinAboveMax,
}

/// The primes from `min` to `max`, both inclusive, in increasing order; an
/// error when `min > max`.
pub fn primes_between(min: usize, max: usize) -> (r: Result<Vec<usize>, RangeError>)
    requires
        max < usize::MAX,
    ensures
        min > max <==> r == Err::<Vec<usize>, RangeError>(RangeError::MinAboveMax),
        r matches Ok(v) ==> lists_primes_between(v@, min as int, max as int),
{
    if min > max {
        Err(RangeError::MinAboveMax)
    } else {
        Ok(prime_sieve(Some(min), max))
    }
}

} // verus!
