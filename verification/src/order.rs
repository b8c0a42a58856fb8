//! First matches, and a stable sort: equal items keep the order in which they came.
use vstd::prelude::*;

verus! {

/// A type whose values stand in an order.
pub trait Ranked: Sized {
    /// `a` may stand before `b`.
    spec fn before(a: Self, b: Self) -> bool;

    /// Whether `a` may stand before `b`.
    fn may_precede(a: &Self, b: &Self) -> (r: bool)
        ensures
            r == Self::before(*a, *b),
    ;
}

/// `sorted` with `x` put behind every item at its end that may stand before `x`.
pub open spec fn insert<T: Ranked>(sorted: Seq<T>, x: T) -> Seq<T>
    decreases sorted.len(),
{
    if sorted.len() == 0 || T::before(sorted.last(), x) {
        sorted.push(x)
    } else {
        insert(sorted.drop_last(), x).push(sorted.last())
    }
}

/// The items of `s` in order; those that tie stay in the order they had.
pub open spec fn sorted<T: Ranked>(s: Seq<T>) -> Seq<T>
    decreases s.len(),
{
    if s.len() == 0 {
        s
    } else {
        insert(sorted(s.drop_last()), s.last())
    }
}

/// Each item may stand before every later one.
pub open spec fn in_order<T: Ranked>(s: Seq<T>) -> bool {
    forall|i: int, j: int| 0 <= i < j < s.len() ==> T::before(#[trigger] s[i], #[trigger] s[j])
}

/// The order is total and transitive.
pub open spec fn is_total_order<T: Ranked>() -> bool {
    &&& forall|a: T, b: T| T::before(a, b) || T::before(b, a)
    &&& forall|a: T, b: T, c: T| T::before(a, b) && T::before(b, c) ==> T::before(a, c)
}

/// Inserting adds the one item and keeps the others.
pub proof fn lemma_insert_multiset<T: Ranked>(s: Seq<T>, x: T)
    ensures
        insert(s, x).to_multiset() == s.to_multiset().insert(x),
        insert(s, x).len() == s.len() + 1,
    decreases s.len(),
{
    broadcast use vstd::seq_lib::group_to_multiset_ensures;

    if s.len() > 0 && !T::before(s.last(), x) {
        lemma_insert_multiset(s.drop_last(), x);
        assert(s =~= s.drop_last().push(s.last()));
        assert(insert(s, x).to_multiset() =~= s.to_multiset().insert(x));
    }
}

/// Sorting neither loses, adds nor repeats an item.
pub proof fn sorting_keeps_the_items<T: Ranked>(s: Seq<T>)
    ensures
        sorted(s).to_multiset() == s.to_multiset(),
        sorted(s).len() == s.len(),
    decreases s.len(),
{
    broadcast use vstd::seq_lib::group_to_multiset_ensures;

    if s.len() > 0 {
        sorting_keeps_the_items(s.drop_last());
        lemma_insert_multiset(sorted(s.drop_last()), s.last());
        assert(s =~= s.drop_last().push(s.last()));
    }
}

/// Inserting keeps the order, and the new item may be preceded by all that it passed over.
proof fn lemma_insert_in_order<T: Ranked>(s: Seq<T>, x: T)
    requires
        is_total_order::<T>(),
        in_order(s),
    ensures
        in_order(insert(s, x)),
        forall|y: T|
            (forall|i: int| 0 <= i < s.len() ==> T::before(#[trigger] s[i], y)) && T::before(x, y)
                ==> forall|i: int|
                0 <= i < insert(s, x).len() ==> T::before(#[trigger] insert(s, x)[i], y),
    decreases s.len(),
{
    if s.len() > 0 && !T::before(s.last(), x) {
        let t = s.drop_last();
        assert(T::before(x, s.last()));
        lemma_insert_in_order(t, x);
        assert forall|i: int| 0 <= i < t.len() implies T::before(#[trigger] t[i], s.last()) by {
            assert(t[i] == s[i]);
        }
        let r = insert(t, x);
        assert forall|i: int| 0 <= i < r.len() implies T::before(#[trigger] r[i], s.last()) by {}
        assert forall|y: T|
            (forall|i: int| 0 <= i < s.len() ==> T::before(#[trigger] s[i], y)) && T::before(
                x,
                y,
            ) implies forall|i: int|
            0 <= i < insert(s, x).len() ==> T::before(#[trigger] insert(s, x)[i], y) by {
            assert forall|i: int| 0 <= i < t.len() implies T::before(#[trigger] t[i], y) by {
                assert(t[i] == s[i]);
            }
            assert(T::before(s[s.len() - 1], y));
        }
    } else {
        assert forall|i: int, j: int|
            0 <= i < j < insert(s, x).len() implies T::before(
            #[trigger] insert(s, x)[i],
            #[trigger] insert(s, x)[j],
        ) by {
            if j == s.len() {
                if i < s.len() - 1 {
                    assert(T::before(s[i], s[s.len() - 1]));
                }
            }
        }
    }
}

/// A sorted sequence is in order.
pub proof fn sorting_puts_in_order<T: Ranked>(s: Seq<T>)
    requires
        is_total_order::<T>(),
    ensures
        in_order(sorted(s)),
    decreases s.len(),
{
    if s.len() > 0 {
        sorting_puts_in_order(s.drop_last());
        lemma_insert_in_order(sorted(s.drop_last()), s.last());
    }
}

/// Sorting what is in order already changes nothing.
pub proof fn sorting_leaves_order_alone<T: Ranked>(s: Seq<T>)
    requires
        in_order(s),
    ensures
        sorted(s) == s,
    decreases s.len(),
{
    if s.len() > 0 {
        let t = s.drop_last();
        assert(in_order(t)) by {
            assert forall|i: int, j: int| 0 <= i < j < t.len() implies T::before(
                #[trigger] t[i],
                #[trigger] t[j],
            ) by {
                assert(t[i] == s[i] && t[j] == s[j]);
            }
        }
        sorting_leaves_order_alone(t);
        if t.len() > 0 {
            assert(T::before(s[s.len() - 2], s[s.len() - 1]));
        }
        assert(s =~= t.push(s.last()));
    }
}

/// The items of `v`, sorted; ties keep their order.
pub fn sort_stable<T: Ranked>(v: Vec<T>) -> (r: Vec<T>)
    ensures
        r@ == sorted(v@),
{
    let mut out: Vec<T> = Vec::new();
    let ghost all = v@;
    assert(out@ =~= sorted(all.take(0)));
    for x in it: v.into_iter()
        invariant
            it.seq() == all,
            out@ == sorted(all.take(it.index() as int)),
    {
        let ghost k: int = it.index() as int;
        assert(x == all[k]);
        let ghost o = out@;
        let mut j: usize = out.len();
        assert(o.take(j as int) =~= o);
        assert(o.skip(j as int) =~= Seq::empty());
        while j > 0 && !T::may_precede(&out[j - 1], &x)
            invariant
                j <= out@.len(),
                out@ == o,
                insert(o, x) == insert(o.take(j as int), x) + o.skip(j as int),
            decreases j,
        {
            assert(o.take(j as int).drop_last() =~= o.take(j - 1));
            assert(insert(o.take(j as int), x) + o.skip(j as int) =~= insert(o.take(j - 1), x)
                + o.skip(j - 1));
            j = j - 1;
        }
        out.insert(j, x);
        assert(insert(o.take(j as int), x) =~= o.take(j as int).push(x));
        assert(out@ =~= insert(o, x));
        assert(all.take(k + 1).drop_last() =~= all.take(k));
    }
    assert(all.take(all.len() as int) =~= all);
    out
}

/// The first index from `from` on whose item satisfies `p`.
pub open spec fn first_index<T>(s: Seq<T>, p: spec_fn(T) -> bool, from: int) -> Option<int>
    decreases s.len() - from,
{
    if from < 0 || from >= s.len() {
        None
    } else if p(s[from]) {
        Some(from)
    } else {
        first_index(s, p, from + 1)
    }
}

/// What `first_index` finds satisfies `p`, and nothing before it does.
pub proof fn lemma_first_index<T>(s: Seq<T>, p: spec_fn(T) -> bool, from: int)
    requires
        0 <= from,
    ensures
        match first_index(s, p, from) {
            Some(i) => from <= i < s.len() && p(s[i]) && forall|j: int|
                from <= j < i ==> !p(#[trigger] s[j]),
            None => forall|j: int| from <= j < s.len() ==> !p(#[trigger] s[j]),
        },
    decreases s.len() - from,
{
    if from < s.len() && !p(s[from]) {
        lemma_first_index(s, p, from + 1);
    }
}

/// Reversing keeps the items.
pub proof fn lemma_reverse_multiset<T>(s: Seq<T>)
    ensures
        s.reverse().to_multiset() == s.to_multiset(),
        s.reverse().len() == s.len(),
    decreases s.len(),
{
    broadcast use vstd::seq_lib::group_to_multiset_ensures;

    if s.len() > 0 {
        let t = s.drop_last();
        lemma_reverse_multiset(t);
        assert(s =~= t.push(s.last()));
        assert(s.reverse() =~= seq![s.last()] + t.reverse());
        vstd::seq_lib::lemma_multiset_commutative(seq![s.last()], t.reverse());
        assert(seq![s.last()] =~= Seq::<T>::empty().push(s.last()));
        assert(s.reverse().to_multiset() =~= s.to_multiset());
    } else {
        assert(s.reverse() =~= s);
    }
}

} // verus!
