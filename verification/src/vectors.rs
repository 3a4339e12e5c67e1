//! Filtering a vector: by value, by reference, and in place.

use vstd::prelude::*;

verus! {

/// Whether `x` is even.
pub open spec fn is_even(x: i32) -> bool {
    x % 2 == 0
}

/// The even elements of `values`, in their order.
pub open spec fn evens(values: Seq<i32>) -> Seq<i32> {
    values.filter(|x: i32| is_even(x))
}

/// Filtering a list that is one element longer: the element is kept if it is even.
proof fn lemma_evens_push(values: Seq<i32>, x: i32)
    ensures
        evens(values.push(x)) == if is_even(x) {
            evens(values).push(x)
        } else {
            evens(values)
        },
{
    values.lemma_filter_push(x, |x: i32| is_even(x));
}

/// The even elements of `vec`, in their order. The vector is used up.
pub fn even_filter(vec: Vec<i32>) -> (new_vec: Vec<i32>)
    ensures
        new_vec@ == evens(vec@),
{
    even_filter_by_ref(&vec)
}

/// The even elements of `vec`, in their order. The vector is only read.
pub fn even_filter_by_ref(vec: &Vec<i32>) -> (new_vec: Vec<i32>)
    ensures
        new_vec@ == evens(vec@),
{
    let mut new_vec: Vec<i32> = Vec::new();
    let mut at: usize = 0;
    proof {
        reveal(Seq::filter);
        assert(vec@.take(0) =~= Seq::<i32>::empty());
    }
    while at < vec.len()
        invariant
            at <= vec.len(),
            new_vec@ == evens(vec@.take(at as int)),
        decreases vec.len() - at,
    {
        let x = vec[at];
        proof {
            assert(vec@.take(at + 1) =~= vec@.take(at as int).push(x));
            lemma_evens_push(vec@.take(at as int), x);
        }
        if x % 2 == 0 {
            new_vec.push(x);
        }
        at += 1;
    }
    proof {
        assert(vec@.take(vec.len() as int) =~= vec@);
    }
    new_vec
}

/// Removes the odd elements from `vec`. The even elements keep their order,
/// and no second vector is made.
pub fn even_filter_inplace(vec: &mut Vec<i32>)
    ensures
        final(vec)@ == evens(old(vec)@),
{
    let ghost initial = vec@;
    let mut kept: usize = 0;
    let mut at: usize = 0;
    proof {
        reveal(Seq::filter);
        assert(initial.take(0) =~= Seq::<i32>::empty());
    }
    while at < vec.len()
        invariant
            kept <= at <= vec.len(),
            vec.len() == initial.len(),
            vec@.take(kept as int) == evens(initial.take(at as int)),
            forall|i: int| at <= i < vec.len() ==> vec@[i] == initial[i],
        decreases vec.len() - at,
    {
        let x = vec[at];
        proof {
            assert(initial.take(at + 1) =~= initial.take(at as int).push(x));
            lemma_evens_push(initial.take(at as int), x);
        }
        if x % 2 == 0 {
            let ghost before = vec@;
            vec.set(kept, x);
            proof {
                assert(vec@.take(kept + 1) =~= before.take(kept as int).push(x));
            }
            kept += 1;
        }
        at += 1;
    }
    proof {
        assert(initial.take(initial.len() as int) =~= initial);
    }
    vec.truncate(kept);
    proof {
        assert(vec@ =~= evens(initial));
    }
}

} // verus!
