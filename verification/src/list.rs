//! Small operations on lists.

use vstd::prelude::*;

verus! {

/// Filtering one element more of a list.
pub proof fn filter_step<A>(list: Seq<A>, n: int, keep: spec_fn(A) -> bool)
    requires
        0 <= n < list.len(),
    ensures
        list.subrange(0, n + 1).filter(keep) == (if keep(list[n]) {
            list.subrange(0, n).filter(keep).push(list[n])
        } else {
            list.subrange(0, n).filter(keep)
        }),
{
    reveal(Seq::filter);
    assert(list.subrange(0, n + 1).drop_last() =~= list.subrange(0, n));
}

/// Nothing of an empty list is left by filtering.
pub proof fn filter_empty<A>(list: Seq<A>, keep: spec_fn(A) -> bool)
    ensures
        list.subrange(0, 0).filter(keep) == Seq::<A>::empty(),
{
    reveal(Seq::filter);
    assert(list.subrange(0, 0) =~= Seq::<A>::empty());
}

/// The whole list is its longest prefix.
pub proof fn whole<A>(list: Seq<A>)
    ensures
        list.subrange(0, list.len() as int) == list,
{
    assert(list.subrange(0, list.len() as int) =~= list);
}

/// What two tests that agree leave of a list is the same.
pub proof fn filters_agree<A>(list: Seq<A>, a: spec_fn(A) -> bool, b: spec_fn(A) -> bool)
    requires
        forall|x: A| #[trigger] a(x) == b(x),
    ensures
        list.filter(a) == list.filter(b),
    decreases list.len(),
{
    reveal(Seq::filter);
    if list.len() > 0 {
        filters_agree(list.drop_last(), a, b);
        assert(a(list.last()) == b(list.last()));
    }
}

/// The entries bear different numbers, all below `next`, which is the number of
/// the entry to come.
pub open spec fn numbered<A>(list: Seq<A>, number: spec_fn(A) -> u64, next: u64) -> bool {
    &&& forall|i: int| 0 <= i < list.len() ==> number(#[trigger] list[i]) < next
    &&& forall|i: int, j: int|
        #![trigger list[i], list[j]]
        0 <= i < j < list.len() ==> number(list[i]) != number(list[j])
}

/// Entries that leave the list free no number.
pub proof fn filtering_keeps_numbers<A>(
    list: Seq<A>,
    keep: spec_fn(A) -> bool,
    number: spec_fn(A) -> u64,
    next: u64,
)
    requires
        numbered(list, number, next),
    ensures
        numbered(list.filter(keep), number, next),
        forall|i: int|
            0 <= i < list.filter(keep).len() ==> list.contains(#[trigger] list.filter(keep)[i]),
    decreases list.len(),
{
    reveal(Seq::filter);
    if list.len() > 0 {
        let rest = list.drop_last();
        let last = list.last();
        let left = rest.filter(keep);
        assert(numbered(rest, number, next)) by {
            assert forall|i: int| 0 <= i < rest.len() implies number(#[trigger] rest[i]) < next by {
                assert(rest[i] == list[i]);
            }
            assert forall|i: int, j: int|
                #![trigger rest[i], rest[j]]
                0 <= i < j < rest.len() implies number(rest[i]) != number(rest[j]) by {
                assert(rest[i] == list[i] && rest[j] == list[j]);
            }
        }
        filtering_keeps_numbers(rest, keep, number, next);
        assert forall|i: int| 0 <= i < left.len() implies list.contains(#[trigger] left[i])
            && number(left[i]) != number(last) by {
            assert(rest.contains(left[i]));
            let p = rest.index_of(left[i]);
            assert(list[p] == left[i]);
            assert(number(list[p]) != number(list[list.len() - 1]));
        }
        let out = list.filter(keep);
        assert(out == if keep(last) {
            left.push(last)
        } else {
            left
        });
        assert(list.contains(last)) by {
            assert(list[list.len() - 1] == last);
        }
        assert forall|i: int| 0 <= i < out.len() implies number(#[trigger] out[i]) < next by {
            if i < left.len() {
                assert(number(left[i]) < next);
            }
        }
        assert forall|i: int, j: int|
            #![trigger out[i], out[j]]
            0 <= i < j < out.len() implies number(out[i]) != number(out[j]) by {
            assert(out[i] == left[i]);
            if j < left.len() {
                assert(out[j] == left[j]);
            }
        }
        assert forall|i: int| 0 <= i < out.len() implies list.contains(#[trigger] out[i]) by {
            if i < left.len() {
                assert(list.contains(left[i]));
            }
        }
    }
}

/// A new entry takes the next number, whichever end of the list it joins.
pub proof fn adding_takes_a_number<A>(
    list: Seq<A>,
    entry: A,
    number: spec_fn(A) -> u64,
    next: u64,
)
    requires
        numbered(list, number, next),
        number(entry) == next,
        next < u64::MAX,
    ensures
        numbered(list.push(entry), number, (next + 1) as u64),
        numbered(seq![entry] + list, number, (next + 1) as u64),
        numbered(list, number, (next + 1) as u64),
{
    let back = list.push(entry);
    let front = seq![entry] + list;
    assert forall|i: int| 0 <= i < list.len() implies number(#[trigger] list[i]) < next + 1 by {}
    assert forall|i: int| 0 <= i < back.len() implies number(#[trigger] back[i]) < next + 1 by {
        if i < list.len() {
            assert(back[i] == list[i]);
        }
    }
    assert forall|i: int, j: int|
        #![trigger back[i], back[j]]
        0 <= i < j < back.len() implies number(back[i]) != number(back[j]) by {
        assert(back[i] == list[i]);
        if j < list.len() {
            assert(back[j] == list[j]);
        }
    }
    assert forall|i: int| 0 <= i < front.len() implies number(#[trigger] front[i]) < next + 1 by {
        if i > 0 {
            assert(front[i] == list[i - 1]);
        }
    }
    assert forall|i: int, j: int|
        #![trigger front[i], front[j]]
        0 <= i < j < front.len() implies number(front[i]) != number(front[j]) by {
        assert(front[j] == list[j - 1]);
        if i > 0 {
            assert(front[i] == list[i - 1]);
        }
    }
}

/// Everything but `x`.
pub open spec fn other_than(x: usize) -> spec_fn(usize) -> bool {
    |y: usize| y != x
}

/// Takes every occurrence of `x` out of a list.
pub fn remove_all(list: &mut Vec<usize>, x: usize)
    ensures
        final(list)@ == old(list)@.filter(other_than(x)),
{
    let ghost all = list@;
    let ghost keep = other_than(x);
    let mut kept: Vec<usize> = Vec::new();
    let mut i: usize = 0;
    proof {
        filter_empty(all, keep);
    }
    while i < list.len()
        invariant
            i <= list.len(),
            list@ == all,
            keep == other_than(x),
            kept@ == all.subrange(0, i as int).filter(keep),
        decreases list.len() - i,
    {
        proof {
            filter_step(all, i as int, keep);
        }
        if list[i] != x {
            kept.push(list[i]);
        }
        i += 1;
    }
    proof {
        whole(all);
    }
    *list = kept;
}

/// `Vec::capacity`: the space that a list has taken. It depends on the
/// allocator, so nothing is claimed of it.
#[verifier::external_body]
fn capacity_of<T>(list: &Vec<T>) -> (capacity: usize) {
    list.capacity()
}

/// `Vec::shrink_to_fit`: gives back unused space. What the list holds stays.
#[verifier::external_body]
fn shrink_to_fit<T>(list: &mut Vec<T>)
    ensures
        final(list)@ == old(list)@,
{
    list.shrink_to_fit()
}

/// Whether a list of `len` elements wastes most of its space.
pub fn is_sparse(len: usize, capacity: usize) -> (yes: bool)
    ensures
        yes == (capacity > 64 && len * 4 < capacity),
{
    capacity > 64 && len <= (capacity - 1) / 4
}

/// Gives back the space of a list that wastes most of it. What the list holds
/// stays; how much space it has is up to the allocator, and not claimed.
pub fn shrink_if_sparse<T>(list: &mut Vec<T>)
    ensures
        final(list)@ == old(list)@,
{
    if is_sparse(list.len(), capacity_of(list)) {
        shrink_to_fit(list);
    }
}

/// Whether a list holds `x`.
pub fn contains(list: &Vec<usize>, x: usize) -> (found: bool)
    ensures
        found == list@.contains(x),
{
    let mut i: usize = 0;
    while i < list.len()
        invariant
            i <= list.len(),
            forall|j: int| 0 <= j < i ==> list@[j] != x,
        decreases list.len() - i,
    {
        if list[i] == x {
            assert(list@[i as int] == x);
            return true;
        }
        i += 1;
    }
    false
}

} // verus!
