//! Lists in order.

use vstd::prelude::*;

use crate::text::chars_of;

verus! {

/// Texts in the order of their characters, a text before its continuations.
pub open spec fn text_le(a: Seq<char>, b: Seq<char>) -> bool
    decreases a.len(),
{
    if a.len() == 0 {
        true
    } else if b.len() == 0 {
        false
    } else if a[0] == b[0] {
        text_le(a.drop_first(), b.drop_first())
    } else {
        a[0] < b[0]
    }
}

/// Items that can be put in order.
pub trait Ranked: View + Sized {
    spec fn le(a: Self::V, b: Self::V) -> bool;

    proof fn total(a: Self::V, b: Self::V)
        ensures
            Self::le(a, b) || Self::le(b, a),
    ;

    proof fn transitive(a: Self::V, b: Self::V, c: Self::V)
        requires
            Self::le(a, b),
            Self::le(b, c),
        ensures
            Self::le(a, c),
    ;

    fn leq(&self, other: &Self) -> (yes: bool)
        ensures
            yes == Self::le(self@, other@),
    ;
}

proof fn text_total(a: Seq<char>, b: Seq<char>)
    ensures
        text_le(a, b) || text_le(b, a),
    decreases a.len(),
{
    if a.len() > 0 && b.len() > 0 && a[0] == b[0] {
        text_total(a.drop_first(), b.drop_first());
    }
}

proof fn text_transitive(a: Seq<char>, b: Seq<char>, c: Seq<char>)
    requires
        text_le(a, b),
        text_le(b, c),
    ensures
        text_le(a, c),
    decreases a.len(),
{
    if a.len() > 0 && b.len() > 0 && c.len() > 0 && a[0] == b[0] && b[0] == c[0] {
        text_transitive(a.drop_first(), b.drop_first(), c.drop_first());
    }
}

/// Two texts of which neither comes behind the other are the same.
pub proof fn text_order_is_strict(a: Seq<char>, b: Seq<char>)
    requires
        text_le(a, b),
        text_le(b, a),
    ensures
        a == b,
    decreases a.len(),
{
    if a.len() > 0 {
        text_order_is_strict(a.drop_first(), b.drop_first());
        assert(a =~= seq![a[0]] + a.drop_first());
        assert(b =~= seq![b[0]] + b.drop_first());
    } else {
        assert(a =~= b);
    }
}

fn text_leq(a: &str, b: &str) -> (yes: bool)
    ensures
        yes == text_le(a@, b@),
{
    let x = chars_of(a);
    let y = chars_of(b);
    let mut i: usize = 0;
    assert(x@.skip(0) =~= x@ && y@.skip(0) =~= y@);
    while i < x.len()
        invariant
            x@ == a@,
            y@ == b@,
            i <= x@.len(),
            i <= y@.len(),
            text_le(a@, b@) == text_le(x@.skip(i as int), y@.skip(i as int)),
        decreases x@.len() - i,
    {
        if i >= y.len() {
            return false;
        }
        let ghost p = x@.skip(i as int);
        let ghost q = y@.skip(i as int);
        assert(p[0] == x@[i as int] && q[0] == y@[i as int]);
        if x[i] != y[i] {
            return x[i] < y[i];
        }
        assert(p.drop_first() =~= x@.skip(i + 1));
        assert(q.drop_first() =~= y@.skip(i + 1));
        i += 1;
    }
    true
}

impl Ranked for String {
    open spec fn le(a: Seq<char>, b: Seq<char>) -> bool {
        text_le(a, b)
    }

    proof fn total(a: Seq<char>, b: Seq<char>) {
        text_total(a, b);
    }

    proof fn transitive(a: Seq<char>, b: Seq<char>, c: Seq<char>) {
        text_transitive(a, b, c);
    }

    fn leq(&self, other: &Self) -> (yes: bool) {
        text_leq(self.as_str(), other.as_str())
    }
}

impl Ranked for (String, String) {
    open spec fn le(a: (Seq<char>, Seq<char>), b: (Seq<char>, Seq<char>)) -> bool {
        if a.0 == b.0 {
            text_le(a.1, b.1)
        } else {
            text_le(a.0, b.0)
        }
    }

    proof fn total(a: (Seq<char>, Seq<char>), b: (Seq<char>, Seq<char>)) {
        text_total(a.0, b.0);
        text_total(a.1, b.1);
    }

    proof fn transitive(
        a: (Seq<char>, Seq<char>),
        b: (Seq<char>, Seq<char>),
        c: (Seq<char>, Seq<char>),
    ) {
        if a.0 == b.0 && b.0 == c.0 {
            text_transitive(a.1, b.1, c.1);
        } else {
            if a.0 != b.0 && b.0 != c.0 {
                text_transitive(a.0, b.0, c.0);
            }
            if a.0 == c.0 {
                text_order_is_strict(a.0, b.0);
            }
        }
    }

    fn leq(&self, other: &Self) -> (yes: bool) {
        if crate::text::str_eq(self.0.as_str(), other.0.as_str()) {
            text_leq(self.1.as_str(), other.1.as_str())
        } else {
            text_leq(self.0.as_str(), other.0.as_str())
        }
    }
}

/// The items as contracts speak of them.
pub open spec fn models<T: View>(list: Seq<T>) -> Seq<T::V> {
    Seq::new(list.len(), |i: int| list[i]@)
}

/// Every item comes before those behind it.
pub open spec fn in_order<T: Ranked>(list: Seq<T::V>) -> bool {
    forall|i: int, j: int|
        0 <= i < j < list.len() ==> T::le(#[trigger] list[i], #[trigger] list[j])
}

/// `list` holds the items of `items`, as often as those do, in order.
pub open spec fn sorting_of<T: Ranked>(list: Seq<T::V>, items: Seq<T::V>) -> bool {
    in_order::<T>(list) && list.to_multiset() == items.to_multiset()
}

fn put_in_order<T: Ranked>(list: &mut Vec<T>, item: T)
    requires
        in_order::<T>(models(old(list)@)),
    ensures
        in_order::<T>(models(final(list)@)),
        models(final(list)@).to_multiset() == models(old(list)@).to_multiset().insert(item@),
{
    let ghost before = models(list@);
    let mut i: usize = 0;
    while i < list.len() && list[i].leq(&item)
        invariant
            i <= list@.len(),
            models(list@) == before,
            forall|j: int| 0 <= j < i ==> T::le(#[trigger] before[j], item@),
        decreases list@.len() - i,
    {
        assert(before[i as int] == list@[i as int]@);
        i += 1;
    }
    proof {
        if i < before.len() {
            assert(before[i as int] == list@[i as int]@);
            T::total(before[i as int], item@);
            assert forall|j: int| i <= j < before.len() implies T::le(
                item@,
                #[trigger] before[j],
            ) by {
                if j > i {
                    T::transitive(item@, before[i as int], before[j]);
                }
            }
        }
        vstd::seq_lib::to_multiset_insert(before, i as int, item@);
    }
    list.insert(i, item);
    assert(models(list@) =~= before.insert(i as int, item@));
}

/// The items in order.
pub fn sorted<T: Ranked>(items: Vec<T>) -> (list: Vec<T>)
    ensures
        sorting_of::<T>(models(list@), models(items@)),
{
    broadcast use vstd::seq_lib::group_to_multiset_ensures;

    let ghost all = models(items@).to_multiset();
    let mut rest = items;
    let mut list: Vec<T> = Vec::new();
    assert(models(list@) =~= Seq::<T::V>::empty());
    assert(models(list@).to_multiset() =~= vstd::multiset::Multiset::empty()) by {
        assert(models(list@).to_multiset().len() == 0);
    }
    assert(models(list@).to_multiset().add(models(rest@).to_multiset()) =~= all);
    while rest.len() > 0
        invariant
            in_order::<T>(models(list@)),
            models(list@).to_multiset().add(models(rest@).to_multiset()) == all,
        decreases rest@.len(),
    {
        let ghost before = models(rest@);
        let ghost done = models(list@).to_multiset();
        match rest.pop() {
            Some(item) => {
                proof {
                    assert(models(rest@).push(item@) =~= before);
                    vstd::seq_lib::to_multiset_build(models(rest@), item@);
                }
                put_in_order(&mut list, item);
                assert(models(list@).to_multiset().add(models(rest@).to_multiset()) =~= all);
            },
            None => {},
        }
    }
    assert(models(rest@).to_multiset() =~= vstd::multiset::Multiset::empty()) by {
        assert(models(rest@).to_multiset().len() == 0);
    }
    assert(models(list@).to_multiset() =~= all);
    list
}

} // verus!
