use vstd::prelude::*;
use vstd::seq_lib::lemma_multiset_commutative;

verus! {

broadcast use vstd::multiset::group_multiset_axioms, vstd::seq_lib::group_to_multiset_ensures;

/// One slot of a pattern: unset (`A`) or set (`B`).
#[derive(Clone, Copy, PartialEq, Eq, Structural, Debug)]
pub enum Symbol {
    A,
    B,
}

impl Symbol {
    /// The character a slot is drawn with: `_` for `A`, `X` for `B`.
    pub fn glyph(&self) -> (c: char)
        ensures
            c == (match self {
                Symbol::A => '_',
                Symbol::B => 'X',
            }),
    {
        match self {
            Symbol::A => '_',
            Symbol::B => 'X',
        }
    }
}

/// The patterns grown from `a` by setting slots at positions `i` and later,
/// in the order of a depth-first walk: for the first position `i`, `a` with
/// `i` set, then everything grown from that pattern past `i`, then everything
/// grown from `a` past `i`.
pub open spec fn branches(a: Seq<Symbol>, i: int) -> Seq<Seq<Symbol>>
    decreases a.len() - i,
{
    if i < 0 || i >= a.len() {
        Seq::empty()
    } else {
        let b = a.update(i, Symbol::B);
        seq![b] + branches(b, i + 1) + branches(a, i + 1)
    }
}

/// Growing from position `i` gives `2^(|a| - i) - 1` patterns: one for each
/// nonempty set of the positions from `i` on.
pub proof fn branches_count(a: Seq<Symbol>, i: int)
    requires
        0 <= i <= a.len(),
    ensures
        branches(a, i).len() + 1 == vstd::arithmetic::power2::pow2((a.len() - i) as nat),
    decreases a.len() - i,
{
    if i < a.len() {
        vstd::arithmetic::power2::lemma_pow2_unfold((a.len() - i) as nat);
        branches_count(a.update(i, Symbol::B), i + 1);
        branches_count(a, i + 1);
    } else {
        vstd::arithmetic::power2::lemma2_to64();
    }
}

/// The views of a sequence of arrays.
pub open spec fn array_views<const N: usize>(s: Seq<[Symbol; N]>) -> Seq<Seq<Symbol>> {
    s.map_values(|x: [Symbol; N]| x@)
}

/// Every pattern that sets one or more slots of `arr` from `idx` on, in
/// depth-first order: exactly `branches(arr, idx)`.
pub fn combinatorial_ordered_tree_recursive<const N: usize>(arr: [Symbol; N], idx: usize) -> (out:
    Vec<[Symbol; N]>)
    ensures
        array_views(out@) == branches(arr@, idx as int),
    decreases N - idx,
{
    let mut out: Vec<[Symbol; N]> = Vec::new();
    let mut i: usize = idx;
    if idx >= N {
        assert(array_views(out@) =~= branches(arr@, idx as int));
        return out;
    }
    while i < N
        invariant
            idx <= i <= N,
            array_views(out@) + branches(arr@, i as int) == branches(arr@, idx as int),
        decreases N - i,
    {
        let mut arr_alt = arr;
        arr_alt[i] = Symbol::B;
        assert(arr_alt@ =~= arr@.update(i as int, Symbol::B));
        let ghost before = out@;
        out.push(arr_alt);
        let mut deeper: Vec<[Symbol; N]> = if i + 1 < N {
            combinatorial_ordered_tree_recursive(arr_alt, i + 1)
        } else {
            Vec::new()
        };
        assert(array_views(deeper@) =~= branches(arr_alt@, i + 1));
        let ghost grown = deeper@;
        out.append(&mut deeper);
        assert(array_views(out@) =~= array_views(before) + seq![arr_alt@] + array_views(grown));
        assert(branches(arr@, i as int) =~= seq![arr_alt@] + branches(arr_alt@, i + 1) + branches(
            arr@,
            i + 1,
        ));
        i = i + 1;
    }
    assert(array_views(out@) =~= branches(arr@, idx as int));
    out
}

/// The patterns still owed for the entries of a work stack: for each entry
/// `(i, a)`, in stack order, `branches(a, i)`.
pub open spec fn pending<const N: usize>(stack: Seq<(usize, [Symbol; N])>) -> Seq<Seq<Symbol>>
    decreases stack.len(),
{
    if stack.len() == 0 {
        Seq::empty()
    } else {
        pending(stack.drop_last()) + branches(stack.last().1@, stack.last().0 as int)
    }
}

/// The all-`A` pattern and every pattern grown from it, produced with a work
/// stack instead of recursion: the same patterns as
/// `[A; N]` followed by `branches([A; N], 0)`, each as often, in another order.
pub fn combinatorial_ordered_tree_loop<const N: usize>() -> (result: Vec<[Symbol; N]>)
    ensures
        array_views(result@).to_multiset() == (seq![Seq::new(N as nat, |j: int| Symbol::A)]
            + branches(Seq::new(N as nat, |j: int| Symbol::A), 0)).to_multiset(),
{
    let start: [Symbol; N] = [Symbol::A; N];
    let ghost all_a = Seq::new(N as nat, |j: int| Symbol::A);
    assert(start@ =~= all_a);
    let ghost target = (seq![all_a] + branches(all_a, 0)).to_multiset();
    let mut result: Vec<[Symbol; N]> = Vec::new();
    result.push(start);
    let mut stack: Vec<(usize, [Symbol; N])> = Vec::new();
    stack.push((0, start));
    proof {
        assert(stack@.drop_last() =~= Seq::<(usize, [Symbol; N])>::empty());
        assert(pending(stack@.drop_last()) == Seq::<Seq<Symbol>>::empty());
        assert(stack@.last() == (0usize, start));
        assert(pending(stack@) =~= branches(all_a, 0));
        assert(array_views(result@) =~= seq![all_a]);
        lemma_multiset_commutative(seq![all_a], branches(all_a, 0));
    }
    while stack.len() > 0
        invariant
            array_views(result@).to_multiset().add(pending(stack@).to_multiset()) == target,
            forall|k: int| 0 <= k < stack@.len() ==> (#[trigger] stack@[k]).0 <= N,
        decreases pending(stack@).len() + stack@.len(),
    {
        let ghost stack_before = stack@;
        let (idx, curr_arr) = match stack.pop() {
            Some(entry) => entry,
            None => (N, start),
        };
        let ghost rest = stack@;
        proof {
            assert(rest =~= stack_before.drop_last());
            assert(stack_before.last() == (idx, curr_arr));
            lemma_multiset_commutative(pending(rest), branches(curr_arr@, idx as int));
        }
        let mut i: usize = idx;
        while i < N
            invariant
                idx <= i <= N,
                forall|k: int| 0 <= k < stack@.len() ==> (#[trigger] stack@[k]).0 <= N,
                array_views(result@).to_multiset().add(pending(stack@).to_multiset()).add(
                    branches(curr_arr@, i as int).to_multiset(),
                ) == target,
                pending(stack@).len() + stack@.len() + branches(curr_arr@, i as int).len() <= pending(
                    rest,
                ).len() + rest.len() + branches(curr_arr@, idx as int).len(),
            decreases N - i,
        {
            let mut new_arr = curr_arr;
            new_arr[i] = Symbol::B;
            let ghost b = curr_arr@.update(i as int, Symbol::B);
            assert(new_arr@ =~= b);
            let ghost old_result = result@;
            let ghost old_stack = stack@;
            result.push(new_arr);
            proof {
                assert(array_views(result@) =~= array_views(old_result).push(b));
                assert(branches(curr_arr@, i as int) =~= seq![b] + branches(b, i + 1) + branches(
                    curr_arr@,
                    i + 1,
                ));
                lemma_multiset_commutative(seq![b] + branches(b, i + 1), branches(curr_arr@, i + 1));
                lemma_multiset_commutative(seq![b], branches(b, i + 1));
            }
            if i + 1 < N {
                stack.push((i + 1, new_arr));
                proof {
                    assert(stack@.drop_last() =~= old_stack);
                    assert(pending(stack@) == pending(old_stack) + branches(b, i + 1));
                    lemma_multiset_commutative(pending(old_stack), branches(b, i + 1));
                }
            } else {
                assert(branches(b, i + 1) =~= Seq::<Seq<Symbol>>::empty());
            }
            i = i + 1;
        }
    }
    assert(pending(stack@) =~= Seq::<Seq<Symbol>>::empty());
    result
}

} // verus!
