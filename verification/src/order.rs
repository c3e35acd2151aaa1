//! Stable sorting.

use vstd::prelude::*;
use crate::model;

verus! {

/// Values with an order in which they are listed.
pub trait Ranked: Sized + View {
    /// `a` is listed before `b` wherever both stand in one list.
    spec fn ranks_below(a: Self::V, b: Self::V) -> bool;

    proof fn lemma_order(a: Self::V, b: Self::V, c: Self::V)
        ensures
            !Self::ranks_below(a, a),
            Self::ranks_below(a, b) && Self::ranks_below(b, c) ==> Self::ranks_below(a, c),
            !Self::ranks_below(b, a) && !Self::ranks_below(c, b) ==> !Self::ranks_below(c, a),
    ;

    fn below(&self, other: &Self) -> (r: bool)
        ensures
            r == Self::ranks_below(self@, other@),
    ;
}

/// `x` put into a list behind everything that it does not have to stand
/// before.
pub open spec fn inserted<T: Ranked>(s: Seq<T::V>, x: T::V) -> Seq<T::V>
    decreases s.len(),
{
    if s.len() > 0 && T::ranks_below(x, s.last()) {
        inserted::<T>(s.drop_last(), x).push(s.last())
    } else {
        s.push(x)
    }
}

/// The list in order; values that rank alike keep their places to each other.
pub open spec fn sorted<T: Ranked>(s: Seq<T::V>) -> Seq<T::V>
    decreases s.len(),
{
    if s.len() == 0 {
        s
    } else {
        inserted::<T>(sorted::<T>(s.drop_last()), s.last())
    }
}

/// Nothing stands behind a value that it has to stand before.
pub open spec fn in_order<T: Ranked>(s: Seq<T::V>) -> bool {
    forall|i: int, j: int| 0 <= i < j < s.len() ==> !T::ranks_below(#[trigger] s[j], #[trigger] s[i])
}

proof fn lemma_inserted<T: Ranked>(s: Seq<T::V>, x: T::V)
    requires
        in_order::<T>(s),
    ensures
        in_order::<T>(inserted::<T>(s, x)),
        inserted::<T>(s, x).to_multiset() == s.to_multiset().insert(x),
        inserted::<T>(s, x).len() == s.len() + 1,
        forall|y: T::V| #[trigger] inserted::<T>(s, x).contains(y) ==> y == x || s.contains(y),
    decreases s.len(),
{
    broadcast use vstd::seq_lib::group_to_multiset_ensures;

    let r = inserted::<T>(s, x);
    if s.len() > 0 && T::ranks_below(x, s.last()) {
        let rest = s.drop_last();
        let inner = inserted::<T>(rest, x);
        lemma_inserted::<T>(rest, x);
        assert(s =~= rest.push(s.last()));
        assert forall|i: int, j: int| 0 <= i < j < r.len() implies !T::ranks_below(
            #[trigger] r[j],
            #[trigger] r[i],
        ) by {
            if j == r.len() - 1 {
                assert(inner.contains(inner[i]));
                if inner[i] == x {
                    T::lemma_order(x, s.last(), x);
                } else {
                    assert(rest.contains(inner[i]));
                    let k = choose|k: int| 0 <= k < rest.len() && rest[k] == inner[i];
                    assert(s[k] == rest[k]);
                }
            } else {
                assert(r[i] == inner[i] && r[j] == inner[j]);
            }
        }
        assert forall|y: T::V| #[trigger] r.contains(y) implies y == x || s.contains(y) by {
            let k = choose|k: int| 0 <= k < r.len() && r[k] == y;
            if k < r.len() - 1 {
                assert(inner.contains(inner[k]));
                if y != x {
                    let m = choose|m: int| 0 <= m < rest.len() && rest[m] == y;
                    assert(s[m] == y);
                }
            } else {
                assert(s[s.len() - 1] == y);
            }
        }
        assert(rest.to_multiset().insert(x).insert(s.last()) =~= rest.to_multiset().insert(
            s.last(),
        ).insert(x));
    } else {
        assert forall|i: int, j: int| 0 <= i < j < r.len() implies !T::ranks_below(
            #[trigger] r[j],
            #[trigger] r[i],
        ) by {
            if j == s.len() {
                if i < s.len() - 1 {
                    assert(!T::ranks_below(s[s.len() - 1], s[i]));
                    T::lemma_order(s[i], s.last(), x);
                }
            } else {
                assert(r[i] == s[i] && r[j] == s[j]);
            }
        }
        assert forall|y: T::V| #[trigger] r.contains(y) implies y == x || s.contains(y) by {
            let k = choose|k: int| 0 <= k < r.len() && r[k] == y;
            if k < s.len() {
                assert(s[k] == y);
            }
        }
    }
}

/// Sorting puts a list in order and keeps what is in it.
pub proof fn law_sorted<T: Ranked>(s: Seq<T::V>)
    ensures
        in_order::<T>(sorted::<T>(s)),
        sorted::<T>(s).to_multiset() == s.to_multiset(),
        sorted::<T>(s).len() == s.len(),
    decreases s.len(),
{
    broadcast use vstd::seq_lib::group_to_multiset_ensures;

    if s.len() > 0 {
        law_sorted::<T>(s.drop_last());
        lemma_inserted::<T>(sorted::<T>(s.drop_last()), s.last());
        assert(s =~= s.drop_last().push(s.last()));
    }
}

/// A list that is in order stays as it is.
pub proof fn law_sorted_idempotent<T: Ranked>(s: Seq<T::V>)
    requires
        in_order::<T>(s),
    ensures
        sorted::<T>(s) == s,
    decreases s.len(),
{
    if s.len() > 0 {
        law_sorted_idempotent::<T>(s.drop_last());
        if s.len() > 1 {
            assert(!T::ranks_below(s[s.len() - 1], s[s.len() - 2]));
        }
        assert(s =~= s.drop_last().push(s.last()));
    }
}

/// Values that rank alike are the same.
pub open spec fn alike_are_same<T: Ranked>(s: Seq<T::V>) -> bool {
    forall|i: int, j: int|
        0 <= i < s.len() && 0 <= j < s.len() && !T::ranks_below(s[i], s[j]) && !T::ranks_below(
            s[j],
            s[i],
        ) ==> #[trigger] s[i] == #[trigger] s[j]
}

proof fn lemma_in_order_unique<T: Ranked>(a: Seq<T::V>, b: Seq<T::V>)
    requires
        in_order::<T>(a),
        in_order::<T>(b),
        alike_are_same::<T>(a),
        a.to_multiset() == b.to_multiset(),
    ensures
        a == b,
    decreases a.len(),
{
    broadcast use vstd::seq_lib::group_to_multiset_ensures;

    assert(a.len() == a.to_multiset().len());
    assert(b.len() == b.to_multiset().len());
    if a.len() == 0 {
        assert(a =~= b);
    } else {
        let x = a.last();
        let y = b.last();
        assert(a.contains(x)) by {
            assert(a[a.len() - 1] == x);
        }
        assert(b.contains(y)) by {
            assert(b[b.len() - 1] == y);
        }
        assert(a.to_multiset().count(x) > 0);
        assert(b.to_multiset().count(y) > 0);
        assert(b.contains(x));
        assert(a.contains(y));
        let m = choose|m: int| 0 <= m < a.len() && a[m] == y;
        let n = choose|n: int| 0 <= n < b.len() && b[n] == x;
        T::lemma_order(x, y, x);
        T::lemma_order(y, x, y);
        assert(!T::ranks_below(a[a.len() - 1], a[m]));
        assert(!T::ranks_below(b[b.len() - 1], b[n]));
        assert(a[m] == a[a.len() - 1]);
        let p = a.drop_last();
        let q = b.drop_last();
        assert(a =~= p.push(x));
        assert(b =~= q.push(x));
        assert(p.to_multiset() =~= a.to_multiset().remove(x));
        assert(q.to_multiset() =~= b.to_multiset().remove(x));
        assert forall|i: int, j: int|
            0 <= i < p.len() && 0 <= j < p.len() && !T::ranks_below(p[i], p[j]) && !T::ranks_below(
                p[j],
                p[i],
            ) implies #[trigger] p[i] == #[trigger] p[j] by {
            assert(p[i] == a[i] && p[j] == a[j]);
        }
        assert forall|i: int, j: int| 0 <= i < j < p.len() implies !T::ranks_below(
            #[trigger] p[j],
            #[trigger] p[i],
        ) by {
            assert(p[i] == a[i] && p[j] == a[j]);
        }
        assert forall|i: int, j: int| 0 <= i < j < q.len() implies !T::ranks_below(
            #[trigger] q[j],
            #[trigger] q[i],
        ) by {
            assert(q[i] == b[i] && q[j] == b[j]);
        }
        lemma_in_order_unique::<T>(p, q);
    }
}

/// Where values that rank alike are the same, a sorted list depends on what is
/// in the list and not on where it stood.
pub proof fn law_sorted_of_same<T: Ranked>(a: Seq<T::V>, b: Seq<T::V>)
    requires
        alike_are_same::<T>(a),
        a.to_multiset() == b.to_multiset(),
    ensures
        sorted::<T>(a) == sorted::<T>(b),
{
    broadcast use vstd::seq_lib::group_to_multiset_ensures;

    law_sorted::<T>(a);
    law_sorted::<T>(b);
    let s = sorted::<T>(a);
    assert forall|i: int, j: int|
        0 <= i < s.len() && 0 <= j < s.len() && !T::ranks_below(s[i], s[j]) && !T::ranks_below(
            s[j],
            s[i],
        ) implies #[trigger] s[i] == #[trigger] s[j] by {
        assert(s.contains(s[i]) && s.contains(s[j]));
        assert(s.to_multiset().count(s[i]) > 0 && s.to_multiset().count(s[j]) > 0);
        assert(a.contains(s[i]) && a.contains(s[j]));
        let k = choose|k: int| 0 <= k < a.len() && a[k] == s[i];
        let m = choose|m: int| 0 <= m < a.len() && a[m] == s[j];
        assert(a[k] == a[m]);
    }
    lemma_in_order_unique::<T>(s, sorted::<T>(b));
}

/// The insertion position leaves the values behind it to follow `x`.
proof fn lemma_inserted_at<T: Ranked>(s: Seq<T::V>, x: T::V, k: int)
    requires
        0 <= k <= s.len(),
        forall|j: int| k <= j < s.len() ==> T::ranks_below(x, #[trigger] s[j]),
        k > 0 ==> !T::ranks_below(x, s[k - 1]),
    ensures
        inserted::<T>(s, x) == s.take(k).push(x) + s.skip(k),
    decreases s.len(),
{
    if k == s.len() {
        assert(s.take(k) =~= s);
        assert(s.take(k).push(x) + s.skip(k) =~= s.push(x));
    } else {
        assert(T::ranks_below(x, s[s.len() - 1]));
        let rest = s.drop_last();
        lemma_inserted_at::<T>(rest, x, k);
        assert(rest.take(k) =~= s.take(k));
        assert((rest.take(k).push(x) + rest.skip(k)).push(s.last()) =~= s.take(k).push(x)
            + s.skip(k));
    }
}

/// Sorts a list; values that rank alike keep their places to each other.
pub fn sort<T: Ranked>(v: Vec<T>) -> (r: Vec<T>)
    ensures
        model::views(r@) == sorted::<T>(model::views(v@)),
{
    let ghost all = model::views(v@);
    let mut rest = v;
    let mut out: Vec<T> = Vec::new();
    assert(all.take(0) =~= Seq::empty());
    assert(all.skip(0) =~= all);
    let mut done: usize = 0;
    let total: usize = rest.len();
    let mut reversed: Vec<T> = Vec::new();
    assert(model::views(reversed@).reverse() =~= all.skip(total as int));
    while rest.len() > 0
        invariant
            model::views(rest@) == all.take(rest@.len() as int),
            rest@.len() <= all.len(),
            all.len() == total,
            model::views(reversed@).reverse() == all.skip(rest@.len() as int),
        decreases rest@.len(),
    {
        let ghost before = reversed@;
        let ghost n = rest@.len() as int;
        match rest.pop() {
            Some(x) => {
                assert(x@ == all[n - 1]) by {
                    assert(all.take(n)[n - 1] == all[n - 1]);
                }
                reversed.push(x);
                assert(model::views(reversed@) =~= model::views(before).push(x@));
                assert(model::views(reversed@).reverse() =~= seq![x@] + model::views(
                    before,
                ).reverse());
                assert(all.skip(n - 1) =~= seq![all[n - 1]] + all.skip(n));
            },
            None => {},
        }
        assert(model::views(rest@) =~= all.take(n - 1)) by {
            assert forall|i: int| 0 <= i < n - 1 implies model::views(rest@)[i] == all.take(
                n - 1,
            )[i] by {
                assert(all.take(n)[i] == all[i]);
            }
        }
    }
    assert(all.skip(0) =~= all);
    while reversed.len() > 0
        invariant
            all.len() == total,
            done + reversed@.len() == total,
            model::views(reversed@).reverse() == all.skip(done as int),
            model::views(out@) == sorted::<T>(all.take(done as int)),
        decreases reversed@.len(),
    {
        let ghost n = reversed@.len() as int;
        let ghost current = reversed@;
        assert(model::views(current).reverse()[0] == all[done as int]);
        match reversed.pop() {
            Some(x) => {
                assert(x@ == all[done as int]);
                let mut pos: usize = out.len();
                while pos > 0 && x.below(&out[pos - 1])
                    invariant
                        pos <= out@.len(),
                        forall|j: int|
                            pos <= j < out@.len() ==> T::ranks_below(
                                x@,
                                #[trigger] model::views(out@)[j],
                            ),
                    decreases pos,
                {
                    pos = pos - 1;
                }
                let ghost before = out@;
                proof {
                    lemma_inserted_at::<T>(model::views(before), x@, pos as int);
                }
                out.insert(pos, x);
                assert(model::views(out@) =~= model::views(before).take(pos as int).push(x@)
                    + model::views(before).skip(pos as int));
            },
            None => {},
        }
        assert(model::views(reversed@).reverse() =~= all.skip(done + 1)) by {
            assert forall|i: int| 0 <= i < n - 1 implies model::views(reversed@).reverse()[i]
                == all.skip(done + 1)[i] by {
                assert(model::views(current).reverse()[i + 1] == all.skip(done as int)[i + 1]);
            }
        }
        assert(all.take(done + 1).drop_last() =~= all.take(done as int));
        assert(all.take(done + 1).last() == all[done as int]);
        done = done + 1;
    }
    assert(all.take(done as int) =~= all);
    out
}

} // verus!
