//! Stable sorting, and the lexicographic order of texts.

use crate::text::chars_of;
use vstd::prelude::*;

verus! {

/// A way to order the values of a type: total and transitive, where two values
/// may rank alike.
pub trait Ranking<T> {
    /// Whether `a` may stand before `b`.
    spec fn le(a: T, b: T) -> bool;

    fn leq(a: &T, b: &T) -> (r: bool)
        ensures
            r == Self::le(*a, *b),
    ;

    proof fn total(a: T, b: T)
        ensures
            Self::le(a, b) || Self::le(b, a),
    ;

    proof fn transitive(a: T, b: T, c: T)
        requires
            Self::le(a, b),
            Self::le(b, c),
        ensures
            Self::le(a, c),
    ;
}

/// `s` with `x` put behind everything that may stand before it.
pub open spec fn inserted<T, K: Ranking<T>>(s: Seq<T>, x: T) -> Seq<T>
    decreases s.len(),
{
    if s.len() == 0 || K::le(s.last(), x) {
        s.push(x)
    } else {
        inserted::<T, K>(s.drop_last(), x).push(s.last())
    }
}

/// The elements of `s` in order; those that rank alike keep their order.
pub open spec fn stably_sorted<T, K: Ranking<T>>(s: Seq<T>) -> Seq<T>
    decreases s.len(),
{
    if s.len() == 0 {
        s
    } else {
        inserted::<T, K>(stably_sorted::<T, K>(s.drop_last()), s.last())
    }
}

/// Whether each element may stand before all that follow it.
pub open spec fn is_sorted<T, K: Ranking<T>>(s: Seq<T>) -> bool {
    forall|i: int, j: int| 0 <= i < j < s.len() ==> K::le(#[trigger] s[i], #[trigger] s[j])
}

proof fn inserted_properties<T, K: Ranking<T>>(s: Seq<T>, x: T)
    requires
        is_sorted::<T, K>(s),
    ensures
        is_sorted::<T, K>(inserted::<T, K>(s, x)),
        inserted::<T, K>(s, x).to_multiset() == s.to_multiset().insert(x),
        inserted::<T, K>(s, x).len() == s.len() + 1,
        forall|y: T| K::le(x, y) && (forall|i: int| 0 <= i < s.len() ==> K::le(s[i], y)) ==> forall|
            i: int,
        |
            0 <= i <= s.len() ==> K::le(#[trigger] inserted::<T, K>(s, x)[i], y),
    decreases s.len(),
{
    broadcast use vstd::seq_lib::group_to_multiset_ensures;

    let r = inserted::<T, K>(s, x);
    if s.len() == 0 || K::le(s.last(), x) {
        assert forall|i: int, j: int| 0 <= i < j < r.len() implies K::le(
            #[trigger] r[i],
            #[trigger] r[j],
        ) by {
            if j == s.len() && i < s.len() - 1 {
                K::transitive(s[i], s.last(), x);
            }
        }
    } else {
        let init = s.drop_last();
        inserted_properties::<T, K>(init, x);
        let m = inserted::<T, K>(init, x);
        K::total(s.last(), x);
        assert forall|i: int| 0 <= i < m.len() implies K::le(#[trigger] m[i], s.last()) by {
            assert(forall|k: int| 0 <= k < init.len() ==> K::le(init[k], s.last()));
        }
        assert(s == init.push(s.last()));
        assert(r.to_multiset() == m.to_multiset().insert(s.last()));
        assert(s.to_multiset() == init.to_multiset().insert(s.last()));
        assert(r.to_multiset() =~= s.to_multiset().insert(x));
        assert forall|y: T|
            K::le(x, y) && (forall|i: int| 0 <= i < s.len() ==> K::le(s[i], y)) implies forall|
            i: int,
        |
            0 <= i <= s.len() ==> K::le(#[trigger] r[i], y) by {
            assert(forall|k: int| 0 <= k < init.len() ==> K::le(init[k], y)) by {
                assert(forall|k: int| 0 <= k < init.len() ==> init[k] == s[k]);
            }
            assert forall|i: int| 0 <= i <= s.len() implies K::le(#[trigger] r[i], y) by {
                if i < s.len() {
                    assert(r[i] == m[i]);
                } else {
                    assert(r[i] == s[s.len() - 1]);
                }
            }
        }
    }
}

/// Sorting puts the elements in order, and neither loses nor adds any.
pub proof fn sorting_sorts<T, K: Ranking<T>>(s: Seq<T>)
    ensures
        is_sorted::<T, K>(stably_sorted::<T, K>(s)),
        stably_sorted::<T, K>(s).to_multiset() == s.to_multiset(),
        stably_sorted::<T, K>(s).len() == s.len(),
    decreases s.len(),
{
    broadcast use vstd::seq_lib::group_to_multiset_ensures;

    if s.len() > 0 {
        sorting_sorts::<T, K>(s.drop_last());
        inserted_properties::<T, K>(stably_sorted::<T, K>(s.drop_last()), s.last());
        assert(s == s.drop_last().push(s.last()));
    }
}

/// Sorting what is sorted changes nothing.
pub proof fn sorting_is_idempotent<T, K: Ranking<T>>(s: Seq<T>)
    requires
        is_sorted::<T, K>(s),
    ensures
        stably_sorted::<T, K>(s) == s,
    decreases s.len(),
{
    if s.len() > 0 {
        let init = s.drop_last();
        assert(is_sorted::<T, K>(init));
        sorting_is_idempotent::<T, K>(init);
        if init.len() > 0 {
            assert(K::le(s[init.len() - 1], s[s.len() - 1]));
        }
        assert(s == init.push(s.last()));
    }
}

/// `s` with `x` put behind everything that may stand before it.
pub open spec fn placed_by<V>(s: Seq<V>, x: V, le: spec_fn(V, V) -> bool) -> Seq<V>
    decreases s.len(),
{
    if s.len() == 0 || le(s.last(), x) {
        s.push(x)
    } else {
        placed_by(s.drop_last(), x, le).push(s.last())
    }
}

/// The elements of `s` in an order; those that rank alike keep their order.
pub open spec fn sorted_by<V>(s: Seq<V>, le: spec_fn(V, V) -> bool) -> Seq<V>
    decreases s.len(),
{
    if s.len() == 0 {
        s
    } else {
        placed_by(sorted_by(s.drop_last(), le), s.last(), le)
    }
}

/// Whether an order compares any two elements, and is transitive.
pub open spec fn is_ranking<V>(le: spec_fn(V, V) -> bool) -> bool {
    &&& forall|a: V, b: V| #[trigger] le(a, b) || le(b, a)
    &&& forall|a: V, b: V, c: V| #[trigger] le(a, b) && #[trigger] le(b, c) ==> le(a, c)
}

/// Whether each element may stand before all that follow it.
pub open spec fn is_sorted_by<V>(s: Seq<V>, le: spec_fn(V, V) -> bool) -> bool {
    forall|i: int, j: int| 0 <= i < j < s.len() ==> le(#[trigger] s[i], #[trigger] s[j])
}

proof fn placed_by_properties<V>(s: Seq<V>, x: V, le: spec_fn(V, V) -> bool)
    requires
        is_ranking(le),
        is_sorted_by(s, le),
    ensures
        is_sorted_by(placed_by(s, x, le), le),
        placed_by(s, x, le).to_multiset() == s.to_multiset().insert(x),
        placed_by(s, x, le).len() == s.len() + 1,
        placed_by(s, x, le).last() == x || (s.len() > 0 && placed_by(s, x, le).last() == s.last()),
    decreases s.len(),
{
    broadcast use vstd::seq_lib::group_to_multiset_ensures;

    let r = placed_by(s, x, le);
    if s.len() == 0 || le(s.last(), x) {
        assert forall|i: int, j: int| 0 <= i < j < r.len() implies le(
            #[trigger] r[i],
            #[trigger] r[j],
        ) by {
            if j == s.len() && i < s.len() - 1 {
                assert(le(s[i], s[s.len() - 1]));
            }
        }
    } else {
        let init = s.drop_last();
        placed_by_properties(init, x, le);
        let m = placed_by(init, x, le);
        assert(le(s.last(), x) || le(x, s.last()));
        assert forall|i: int| 0 <= i < m.len() implies le(#[trigger] m[i], s.last()) by {
            if init.len() > 0 {
                assert(le(s[init.len() - 1], s[s.len() - 1]));
            }
            if i < m.len() - 1 {
                assert(le(m[i], m[m.len() - 1]));
            }
        }
        assert(s == init.push(s.last()));
        assert(r.to_multiset() == m.to_multiset().insert(s.last()));
        assert(s.to_multiset() == init.to_multiset().insert(s.last()));
        assert(r.to_multiset() =~= s.to_multiset().insert(x));
    }
}

/// Sorting by a ranking puts the elements in order, and neither loses nor adds any.
pub proof fn sorting_by_sorts<V>(s: Seq<V>, le: spec_fn(V, V) -> bool)
    requires
        is_ranking(le),
    ensures
        is_sorted_by(sorted_by(s, le), le),
        sorted_by(s, le).to_multiset() == s.to_multiset(),
        sorted_by(s, le).len() == s.len(),
    decreases s.len(),
{
    broadcast use vstd::seq_lib::group_to_multiset_ensures;

    if s.len() > 0 {
        sorting_by_sorts(s.drop_last(), le);
        placed_by_properties(sorted_by(s.drop_last(), le), s.last(), le);
        assert(s == s.drop_last().push(s.last()));
    }
}

proof fn inserted_is_placed_by<T, V, K: Ranking<T>>(
    s: Seq<T>,
    x: T,
    f: spec_fn(T) -> V,
    le: spec_fn(V, V) -> bool,
)
    requires
        forall|a: T, b: T| #[trigger] K::le(a, b) == le(f(a), f(b)),
    ensures
        inserted::<T, K>(s, x).map_values(f) == placed_by(s.map_values(f), f(x), le),
    decreases s.len(),
{
    if s.len() == 0 || K::le(s.last(), x) {
        assert(s.push(x).map_values(f) =~= s.map_values(f).push(f(x)));
    } else {
        inserted_is_placed_by::<T, V, K>(s.drop_last(), x, f, le);
        assert(s.drop_last().map_values(f) =~= s.map_values(f).drop_last());
        assert(inserted::<T, K>(s.drop_last(), x).push(s.last()).map_values(f) =~= inserted::<T, K>(
            s.drop_last(),
            x,
        ).map_values(f).push(f(s.last())));
    }
}

/// Sorting and then looking at part of each element is sorting those parts, where
/// the order depends on them alone.
pub proof fn sorting_commutes<T, V, K: Ranking<T>>(
    s: Seq<T>,
    f: spec_fn(T) -> V,
    le: spec_fn(V, V) -> bool,
)
    requires
        forall|a: T, b: T| #[trigger] K::le(a, b) == le(f(a), f(b)),
    ensures
        stably_sorted::<T, K>(s).map_values(f) == sorted_by(s.map_values(f), le),
    decreases s.len(),
{
    if s.len() > 0 {
        sorting_commutes::<T, V, K>(s.drop_last(), f, le);
        assert(s.drop_last().map_values(f) =~= s.map_values(f).drop_last());
        inserted_is_placed_by::<T, V, K>(
            stably_sorted::<T, K>(s.drop_last()),
            s.last(),
            f,
            le,
        );
    } else {
        assert(s.map_values(f) =~= Seq::<V>::empty());
    }
}

/// Sorts stably.
pub fn stable_sort<T, K: Ranking<T>>(v: Vec<T>) -> (r: Vec<T>)
    ensures
        r@ == stably_sorted::<T, K>(v@),
{
    let ghost all = v@;
    let mut rest = v;
    let mut out: Vec<T> = Vec::new();
    let ghost mut done: int = 0;
    while rest.len() > 0
        invariant
            0 <= done <= all.len(),
            rest@ == all.skip(done),
            out@ == stably_sorted::<T, K>(all.take(done)),
        decreases rest.len(),
    {
        let x = rest.remove(0);
        let ghost sorted = out@;
        let mut n: usize = out.len();
        assert(sorted.take(n as int) == sorted);
        assert(sorted.skip(n as int) == Seq::<T>::empty());
        while n > 0 && !K::leq(&out[n - 1], &x)
            invariant
                n <= out.len(),
                out@ == sorted,
                inserted::<T, K>(sorted.take(n as int), x) + sorted.skip(n as int) == inserted::<T, K>(
                    sorted,
                    x,
                ),
            decreases n,
        {
            let ghost head = sorted.take(n as int);
            assert(head.drop_last() == sorted.take(n - 1));
            assert(seq![head.last()] + sorted.skip(n as int) == sorted.skip(n - 1));
            assert(inserted::<T, K>(head, x) + sorted.skip(n as int) == inserted::<T, K>(
                head.drop_last(),
                x,
            ) + (seq![head.last()] + sorted.skip(n as int)));
            n -= 1;
        }
        out.insert(n, x);
        proof {
            assert(out@ == sorted.take(n as int).push(x) + sorted.skip(n as int));
            assert(all.take(done + 1).drop_last() == all.take(done));
            assert(all.take(done + 1).last() == x);
            done = done + 1;
        }
    }
    assert(all.take(done) == all);
    out
}

/// Whether `a` comes no later than `b` in the lexicographic order of characters.
pub open spec fn text_le(a: Seq<char>, b: Seq<char>) -> bool
    decreases a.len(),
{
    if a.len() == 0 {
        true
    } else if b.len() == 0 {
        false
    } else if a[0] != b[0] {
        a[0] < b[0]
    } else {
        text_le(a.skip(1), b.skip(1))
    }
}

/// The order of texts is total, transitive, and tells any two apart.
pub proof fn texts_are_totally_ordered(a: Seq<char>, b: Seq<char>, c: Seq<char>)
    ensures
        text_le(a, b) || text_le(b, a),
        text_le(a, b) && text_le(b, a) ==> a == b,
        text_le(a, b) && text_le(b, c) ==> text_le(a, c),
    decreases a.len() + b.len() + c.len(),
{
    if a.len() > 0 && b.len() > 0 {
        let a1 = a.skip(1);
        let b1 = b.skip(1);
        let c1 = if c.len() > 0 {
            c.skip(1)
        } else {
            c
        };
        texts_are_totally_ordered(a1, b1, c1);
        if a[0] == b[0] && a1 == b1 {
            assert(a == seq![a[0]] + a1);
            assert(b == seq![b[0]] + b1);
        }
    } else {
        if a.len() == 0 && b.len() == 0 {
            assert(a == b);
        }
    }
}

/// Whether the code point of `c` is below that of `d`.
fn char_lt(c: char, d: char) -> (r: bool)
    ensures
        r == (c < d),
{
    (c as u32) < (d as u32)
}

/// Whether `a` comes no later than `b` in the lexicographic order of characters.
pub fn str_le(a: &str, b: &str) -> (r: bool)
    ensures
        r == text_le(a@, b@),
{
    let x = chars_of(a);
    let y = chars_of(b);
    let mut i: usize = 0;
    assert(x@.skip(0) == x@);
    assert(y@.skip(0) == y@);
    while i < x.len() && i < y.len()
        invariant
            i <= x.len(),
            i <= y.len(),
            x@ == a@,
            y@ == b@,
            text_le(x@.skip(i as int), y@.skip(i as int)) == text_le(x@, y@),
        decreases x.len() - i,
    {
        let c: char = x[i];
        let d: char = y[i];
        assert(x@.skip(i as int)[0] == c);
        assert(y@.skip(i as int)[0] == d);
        if c != d {
            return char_lt(c, d);
        }
        assert(x@.skip(i as int).skip(1) == x@.skip(i + 1));
        assert(y@.skip(i as int).skip(1) == y@.skip(i + 1));
        i += 1;
    }
    i == x.len()
}

/// A text comes before every longer text that begins with it, and otherwise the first sign in
/// which two texts differ decides.
pub proof fn texts_are_ordered_by_their_first_difference(
    front: Seq<char>,
    a: Seq<char>,
    b: Seq<char>,
)
    ensures
        text_le(front, front + b),
        a.len() > 0 && b.len() > 0 && a[0] < b[0] ==> text_le(front + a, front + b) && !text_le(
            front + b,
            front + a,
        ),
    decreases front.len(),
{
    if front.len() > 0 {
        let rest = front.skip(1);
        texts_are_ordered_by_their_first_difference(rest, a, b);
        assert((front + a).skip(1) =~= rest + a);
        assert((front + b).skip(1) =~= rest + b);
        assert((front + a)[0] == front[0]);
        assert((front + b)[0] == front[0]);
    } else {
        assert(front + a =~= a);
        assert(front + b =~= b);
    }
}

/// Sorting keeps the order of what ranks alike.
pub proof fn equals_keep_their_order<T, K: Ranking<T>>(s: Seq<T>)
    requires
        forall|i: int, j: int|
            0 <= i < s.len() && 0 <= j < s.len() ==> K::le(#[trigger] s[i], #[trigger] s[j]),
    ensures
        stably_sorted::<T, K>(s) == s,
{
    sorting_is_idempotent::<T, K>(s);
}

} // verus!
