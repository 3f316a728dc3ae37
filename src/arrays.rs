use vstd::prelude::*;

verus! {

/// The remainder of `x` by `d > 0` that takes the sign of `x`, as the `%`
/// operator on signed integers gives it (the quotient is rounded toward zero).
pub open spec fn truncated_rem(x: int, d: int) -> int {
    if x >= 0 {
        x % d
    } else {
        -((-x) % d)
    }
}

/// Each value of `arr` reduced modulo `modulus` to its non-negative remainder
/// (Euclidean remainder), as a `u8` array of the same length.
pub fn mod_array<const N: usize>(arr: [i64; N], modulus: u8) -> (out: [u8; N])
    requires
        modulus > 0,
    ensures
        forall|i: int| 0 <= i < N ==> #[trigger] out[i] as int == arr[i] as int % modulus as int,
{
    let mut out: [u8; N] = [0; N];
    let m: i64 = modulus as i64;
    let mut i: usize = 0;
    while i < N
        invariant
            m == modulus as i64,
            m > 0,
            forall|j: int| 0 <= j < i ==> #[trigger] out[j] as int == arr[j] as int % m as int,
        decreases N - i,
    {
        let r: i64 = match arr[i].checked_rem_euclid(m) {
            Some(v) => v,
            None => 0,
        };
        assert(0 <= r < m && r == arr[i as int] as int % m as int);
        out[i] = r as u8;
        i = i + 1;
    }
    out
}

/// Each value of `arr` by `%` with `modulus`: the remainder that takes the
/// sign of the value, cast to `i8` as `as` does (two's complement truncation,
/// so remainders from 128 up wrap to negative values).
pub fn rem_array<const N: usize>(arr: [i64; N], modulus: u8) -> (out: [i8; N])
    requires
        modulus > 0,
    ensures
        forall|i: int|
            0 <= i < N ==> #[trigger] out[i] == truncated_rem(arr[i] as int, modulus as int) as i8,
{
    let mut out: [i8; N] = [0; N];
    let m: i64 = modulus as i64;
    let mut i: usize = 0;
    while i < N
        invariant
            m == modulus as i64,
            m > 0,
            forall|j: int|
                0 <= j < i ==> #[trigger] out[j] == truncated_rem(arr[j] as int, m as int) as i8,
        decreases N - i,
    {
        proof {
            let x = arr[i as int] as int;
            if x < 0 {
                assert(0 <= (x * -1) % (m as int) < m);
            } else {
                assert(0 <= x % (m as int) < m);
            }
        }
        let c = arr[i].checked_rem(m);
        assert(c is Some);
        let r: i64 = match c {
            Some(v) => v,
            None => 0,
        };
        proof {
            let x = arr[i as int] as int;
            let d = m as int;
            if x == 0 {
                vstd::arithmetic::div_mod::lemma_small_mod(0, d as nat);
            }
        }
        assert(r == truncated_rem(arr[i as int] as int, m as int));
        out[i] = #[verifier::truncate] (r as i8);
        i = i + 1;
    }
    out
}

} // verus!
