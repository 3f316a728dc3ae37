use bitvec::vec::BitVec;
use vstd::prelude::*;

use crate::sieve::{is_prime, lists_primes_between, lower_bound, no_small_factor};

verus! {

/// A bit vector, one bit per number marked; Verus sees only `bits_of`.
#[verifier::external_body]
pub struct BitMarks {
    bits: BitVec,
}

/// The bits a bit vector holds, in order.
pub uninterp spec fn bits_of(b: BitMarks) -> Seq<bool>;

/// Relies on bitvec::vec::BitVec::repeat: `len` bits, all set.
#[verifier::external_body]
fn bits_repeat(len: usize) -> (r: BitMarks)
    ensures
        bits_of(r) == Seq::new(len as nat, |i: int| true),
{
    BitMarks { bits: BitVec::repeat(true, len) }
}

/// Relies on bitvec::slice::BitSlice::set: bit `i` is cleared, the others
/// are kept (it panics past the end, which `requires` rules out).
#[verifier::external_body]
fn bit_clear(b: &mut BitMarks, i: usize)
    requires
        i < bits_of(*old(b)).len(),
    ensures
        bits_of(*final(b)) == bits_of(*old(b)).update(i as int, false),
{
    b.bits.set(i, false)
}

/// Relies on the `Index<usize>` of bitvec::slice::BitSlice: bit `i` (it
/// panics past the end, which `requires` rules out).
#[verifier::external_body]
fn bit_at(b: &BitMarks, i: usize) -> (r: bool)
    requires
        i < bits_of(*b).len(),
    ensures
        r == bits_of(*b)[i as int],
{
    b.bits[i]
}

/// Marks, one bit each, every number from zero to `max` whether it is prime, by the sieve of
/// Eratosthenes: for each `i` with `i * i <= max` still marked prime, its
/// multiples from `i * i` on are marked composite.
fn sieve_bits(max: usize) -> (marks: BitMarks)
    requires
        max < usize::MAX,
    ensures
        bits_of(marks).len() == max + 1,
        forall|k: int| 0 <= k <= max ==> #[trigger] bits_of(marks)[k] == is_prime(k),
{
    let mut marks: BitMarks = bits_repeat(max + 1);
    bit_clear(&mut marks, 0);
    if max >= 1 {
        bit_clear(&mut marks, 1);
    }
    let mut i: usize = 2;
    while i <= max / i
        invariant
            max < usize::MAX,
            2 <= i <= max + 2,
            bits_of(marks).len() == max + 1,
            forall|k: int|
                0 <= k <= max ==> #[trigger] bits_of(marks)[k] == (k >= 2 && no_small_factor(k, i as int)),
        decreases max + 2 - i,
    {
        assert(i * i <= max && i < max) by (nonlinear_arith)
            requires
                i <= max / i,
                i >= 2,
        ;
        if bit_at(&marks, i) {
            let mut index: usize = i * i;
            let ghost start = index as int;
            proof {
                vstd::arithmetic::div_mod::lemma_mod_multiples_basic(i as int, i as int);
            }
            while index <= max
                invariant
                    max < usize::MAX,
                    2 <= i < max,
                    i * i <= max,
                    start == i * i,
                    start <= index <= max + 1,
                    index % i == 0 || index == max + 1,
                    bits_of(marks).len() == max + 1,
                    forall|k: int|
                        0 <= k <= max ==> #[trigger] bits_of(marks)[k] == (k >= 2 && no_small_factor(
                            k,
                            i as int,
                        ) && !(k % (i as int) == 0 && start <= k < index)),
                decreases max + 1 - index,
            {
                bit_clear(&mut marks, index);
                proof {
                    assert forall|k: int| #[trigger] (k % (i as int)) == 0 implies k <= index || k
                        >= index + i by {
                        crate::sieve::lemma_no_multiple_between(index as int, k, i as int);
                    }
                }
                if index > max - i {
                    index = max + 1;
                } else {
                    proof {
                        vstd::arithmetic::div_mod::lemma_mod_add_multiples_vanish(index as int, i as int);
                    }
                    index = index + i;
                }
            }
            proof {
                assert forall|k: int| 0 <= k <= max implies #[trigger] bits_of(marks)[k] == (k >= 2
                    && no_small_factor(k, i + 1)) by {
                    if k >= 2 && i * i <= k && k % (i as int) == 0 {
                        assert(!no_small_factor(k, i + 1));
                    }
                }
            }
        } else {
            proof {
                assert(!no_small_factor(i as int, i as int));
                let q = choose|q: int| 2 <= q < i && q * q <= i && #[trigger] ((i as int) % q) != 0 == false;
                assert forall|k: int| 0 <= k <= max implies #[trigger] bits_of(marks)[k] == (k >= 2
                    && no_small_factor(k, i + 1)) by {
                    if k >= 2 && i * i <= k && k % (i as int) == 0 {
                        crate::sieve::lemma_factor_passes_on(k, i as int, q);
                        assert(!no_small_factor(k, i as int));
                    }
                }
            }
        }
        i = i + 1;
    }
    proof {
        assert(max < i * i) by (nonlinear_arith)
            requires
                i > max / i,
                i >= 2,
        ;
        assert forall|k: int| 0 <= k <= max implies #[trigger] bits_of(marks)[k] == is_prime(k) by {
            if k >= 2 {
                crate::sieve::lemma_no_small_factor_is_prime(k, i as int);
            }
        }
    }
    marks
}

/// The primes from `min` (zero when `None`) to `max`, both inclusive, in
/// increasing order, sieved in a bit vector. A minimum above `max` gives no
/// primes.
pub fn prime_sieve(min: Option<usize>, max: usize) -> (r: Vec<usize>)
    requires
        max < usize::MAX,
    ensures
        lists_primes_between(r@, lower_bound(min), max as int),
{
    let marks = sieve_bits(max);
    let lo: usize = match min {
        Some(m) => m,
        None => 0,
    };
    let mut result: Vec<usize> = Vec::new();
    let mut j: usize = lo;
    while j <= max
        invariant
            max < usize::MAX,
            lo == lower_bound(min),
            lo <= j,
            j <= max + 1 || j == lo,
            bits_of(marks).len() == max + 1,
            forall|k: int| 0 <= k <= max ==> #[trigger] bits_of(marks)[k] == is_prime(k),
            forall|k: int| 0 <= k < result@.len() ==> lo <= #[trigger] result@[k] < j && is_prime(result@[k] as int),
            forall|n: int| lo <= n < j && n <= max && is_prime(n) ==> result@.contains(n as usize),
            forall|a: int, b: int| 0 <= a < b < result@.len() ==> result@[a] < result@[b],
        decreases max + 1 - j,
    {
        if bit_at(&marks, j) {
            proof {
                assert forall|n: int| lo <= n < j + 1 && n <= max && is_prime(n) implies result@.push(j).contains(n as usize) by {
                    if n == j {
                        assert(result@.push(j)[result@.len() as int] == j);
                    } else {
                        let w = choose|w: int| 0 <= w < result@.len() && result@[w] == n as usize;
                        assert(result@.push(j)[w] == n as usize);
                    }
                }
            }
            result.push(j);
        } else {
            proof {
                assert forall|n: int| lo <= n < j + 1 && n <= max && is_prime(n) implies result@.contains(n as usize) by {
                    assert(n != j);
                }
            }
        }
        j = j + 1;
    }
    result
}

} // verus!
