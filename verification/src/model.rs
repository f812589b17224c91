//! What the operations do to a sequence of elements, and what follows from
//! that for every array.

use vstd::prelude::*;

verus! {

/// Taking a value from the front of `s`: the value, if there is one, and
/// what is left.
pub open spec fn take_front<T>(s: Seq<T>) -> (Option<T>, Seq<T>) {
    if s.len() == 0 {
        (None, s)
    } else {
        (Some(s.first()), s.drop_first())
    }
}

/// Taking a value from the back of `s`: the value, if there is one, and
/// what is left.
pub open spec fn take_back<T>(s: Seq<T>) -> (Option<T>, Seq<T>) {
    if s.len() == 0 {
        (None, s)
    } else {
        (Some(s.last()), s.drop_last())
    }
}

/// The array `s` after each value of `xs` has been pushed, the first one
/// first.
pub open spec fn push_all<T>(s: Seq<T>, xs: Seq<T>) -> Seq<T>
    decreases xs.len(),
{
    if xs.len() == 0 {
        s
    } else {
        push_all(s.push(xs.first()), xs.drop_first())
    }
}

/// What `n` pops in a row give on the array `s`, in the order of the
/// calls, and the array that they leave.
pub open spec fn pop_n<T>(s: Seq<T>, n: nat) -> (Seq<Option<T>>, Seq<T>)
    decreases n,
{
    if n == 0 {
        (Seq::empty(), s)
    } else {
        let (item, rest) = take_back(s);
        let (items, left) = pop_n(rest, (n - 1) as nat);
        (seq![item] + items, left)
    }
}

/// Where the element at position `k` stands after an insertion at
/// position `index`.
pub open spec fn place_after_insert(k: int, index: int) -> int {
    if k < index {
        k
    } else {
        k + 1
    }
}

/// What an iterator over `s` hands out when it is asked once for each
/// entry of `from_back`, at the back where the entry is true and at the
/// front where it is false: the values that came from the front, in the
/// order in which they came; those that came from the back, likewise; and
/// what is left.
pub open spec fn take_each<T>(s: Seq<T>, from_back: Seq<bool>) -> (Seq<T>, Seq<T>, Seq<T>)
    decreases from_back.len(),
{
    if from_back.len() == 0 {
        (Seq::empty(), Seq::empty(), s)
    } else {
        let (item, rest) = if from_back.first() {
            take_back(s)
        } else {
            take_front(s)
        };
        let (fronts, backs, left) = take_each(rest, from_back.drop_first());
        match item {
            None => (fronts, backs, left),
            Some(value) => if from_back.first() {
                (fronts, seq![value] + backs, left)
            } else {
                (seq![value] + fronts, backs, left)
            },
        }
    }
}

/// Pushing one value after another is appending them all.
pub proof fn lemma_push_all_appends<T>(s: Seq<T>, xs: Seq<T>)
    ensures
        push_all(s, xs) == s + xs,
    decreases xs.len(),
{
    if xs.len() == 0 {
        assert(s + xs =~= s);
    } else {
        lemma_push_all_appends(s.push(xs.first()), xs.drop_first());
        assert(s.push(xs.first()) + xs.drop_first() =~= s + xs);
    }
}

/// As long as there are elements, each pop gives the last one that is
/// left, and the elements before them stay.
pub proof fn lemma_pop_n_takes_from_the_end<T>(s: Seq<T>, n: nat)
    requires
        n <= s.len(),
    ensures
        pop_n(s, n).0.len() == n,
        forall|i: int| 0 <= i < n ==> (#[trigger] pop_n(s, n).0[i]) == Some(s[s.len() - 1 - i]),
        pop_n(s, n).1 == s.subrange(0, s.len() - n),
    decreases n,
{
    if n == 0 {
        assert(s.subrange(0, s.len() as int) =~= s);
    } else {
        let rest = s.drop_last();
        lemma_pop_n_takes_from_the_end(rest, (n - 1) as nat);
        let items = pop_n(rest, (n - 1) as nat).0;
        assert(pop_n(s, n).0 == seq![Some(s.last())] + items);
        assert forall|i: int| 0 <= i < n implies (#[trigger] pop_n(s, n).0[i]) == Some(
            s[s.len() - 1 - i],
        ) by {
            if i > 0 {
                assert(pop_n(s, n).0[i] == items[i - 1]);
            }
        }
        assert(rest.subrange(0, rest.len() - (n - 1)) =~= s.subrange(0, s.len() - n));
    }
}

/// After any pushes, as many pops give the pushed values back in reverse
/// order and leave the array as it was before the pushes. If it was empty
/// then, one more pop gives nothing.
pub proof fn lemma_pops_reverse_pushes<T>(s: Seq<T>, xs: Seq<T>)
    ensures
        pop_n(push_all(s, xs), xs.len()).0 == xs.reverse().map_values(|x: T| Some(x)),
        pop_n(push_all(s, xs), xs.len()).1 == s,
        s.len() == 0 ==> take_back(pop_n(push_all(s, xs), xs.len()).1).0 is None,
{
    lemma_push_all_appends(s, xs);
    lemma_pop_n_takes_from_the_end(s + xs, xs.len());
    assert(pop_n(s + xs, xs.len()).0 =~= xs.reverse().map_values(|x: T| Some(x)));
    assert((s + xs).subrange(0, s.len() as int) =~= s);
}

/// An insertion at the front followed by a removal at the front gives the
/// inserted value back and leaves the array as it was.
pub proof fn lemma_insert_front_then_remove_front<T>(s: Seq<T>, x: T)
    ensures
        s.insert(0, x)[0] == x,
        s.insert(0, x).remove(0) == s,
        s.insert(0, x).remove(0).len() == s.len(),
{
    assert(s.insert(0, x).remove(0) =~= s);
}

/// An insertion at a position of the array or at its end makes the array
/// one longer, puts the value at that position, and keeps the elements that
/// were there in the order in which they stood.
pub proof fn lemma_insert_keeps_order<T>(s: Seq<T>, index: int, x: T)
    requires
        0 <= index <= s.len(),
    ensures
        s.insert(index, x).len() == s.len() + 1,
        s.insert(index, x)[index] == x,
        forall|k: int|
            0 <= k < s.len() ==> (#[trigger] s.insert(index, x)[place_after_insert(k, index)])
                == s[k],
        forall|j: int, k: int|
            0 <= j < k < s.len() ==> place_after_insert(j, index) < place_after_insert(k, index),
{
}

/// However the calls at the front and at the back are mixed, the values
/// from the front, then what is left, then the values from the back in
/// reverse are the elements in their order: each comes out once, those
/// from the front in order and those from the back in reverse order. Once
/// there have been as many calls as elements, nothing is left.
pub proof fn lemma_take_each_splits<T>(s: Seq<T>, from_back: Seq<bool>)
    ensures
        ({
            let (fronts, backs, left) = take_each(s, from_back);
            &&& fronts + left + backs.reverse() == s
            &&& from_back.len() >= s.len() ==> left.len() == 0
            &&& from_back.len() <= s.len() ==> fronts.len() + backs.len() == from_back.len()
        }),
    decreases from_back.len(),
{
    let (fronts, backs, left) = take_each(s, from_back);
    if from_back.len() == 0 {
        assert(fronts + left + backs.reverse() =~= s);
    } else {
        let (item, rest) = if from_back.first() {
            take_back(s)
        } else {
            take_front(s)
        };
        lemma_take_each_splits(rest, from_back.drop_first());
        let (f, b, l) = take_each(rest, from_back.drop_first());
        assert(f + l + b.reverse() == rest);
        match item {
            None => {},
            Some(value) => {
                if from_back.first() {
                    assert((seq![value] + b).reverse() =~= b.reverse().push(value));
                    assert(f + l + b.reverse().push(value) =~= (f + l + b.reverse()).push(value));
                    assert(rest.push(value) =~= s);
                } else {
                    assert(seq![value] + f + l + b.reverse() =~= seq![value] + (f + l + b.reverse()));
                    assert(seq![value] + rest =~= s);
                }
            },
        }
    }
}

} // verus!
