use vstd::prelude::*;

verus! {

/// The items of `xs` after the first, in reverse order: the first item is
/// left out. Each item of the result is a clone of the item of `xs` that it
/// mirrors.
pub fn reverse<T: Clone>(xs: &[T]) -> (rev: Vec<T>)
    ensures
        xs@.len() == 0 ==> rev@.len() == 0,
        xs@.len() > 0 ==> rev@.len() == xs@.len() - 1,
        forall|k: int| 0 <= k < rev@.len() ==> cloned(xs@[xs@.len() - 1 - k], #[trigger] rev@[k]),
{
    let mut rev: Vec<T> = Vec::new();
    let mut i: usize = 1;
    while i < xs.len()
        invariant
            1 <= i,
            i <= xs@.len() || xs@.len() == 0,
            xs@.len() == 0 ==> rev@.len() == 0,
            xs@.len() > 0 ==> rev@.len() == i - 1,
            forall|k: int| 0 <= k < rev@.len() ==> cloned(xs@[i - 1 - k], #[trigger] rev@[k]),
        decreases xs@.len() - i,
    {
        let item = xs[i].clone();
        let ghost before = rev@;
        rev.insert(0, item);
        assert forall|k: int| 0 <= k < rev@.len() implies cloned(xs@[i as int - k], #[trigger] rev@[k]) by {
            if k > 0 {
                assert(rev@[k] == before[k - 1]);
            }
        }
        i = i + 1;
    }
    rev
}

} // verus!
