//! Searching, filtering and listing.

use vstd::prelude::*;
use crate::model;
use crate::order;
use crate::order::{sort, Ranked};
use crate::text;
use crate::text::{chars_of, same_text};

verus! {

/// The first position at or after `i` of an element that `p` accepts.
pub open spec fn first_from<T>(s: Seq<T>, p: spec_fn(T) -> bool, i: int) -> Option<int>
    decreases s.len() - i,
{
    if i < 0 || i >= s.len() {
        None
    } else if p(s[i]) {
        Some(i)
    } else {
        first_from(s, p, i + 1)
    }
}

/// The first position of an element that `p` accepts.
pub open spec fn first<T>(s: Seq<T>, p: spec_fn(T) -> bool) -> Option<int> {
    first_from(s, p, 0)
}

/// The first element that `p` accepts.
pub open spec fn found<T>(s: Seq<T>, p: spec_fn(T) -> bool) -> Option<T> {
    match first(s, p) {
        Some(i) => Some(s[i]),
        None => None,
    }
}

/// The elements that `p` accepts, in order.
pub open spec fn kept<T>(s: Seq<T>, p: spec_fn(T) -> bool) -> Seq<T>
    decreases s.len(),
{
    if s.len() == 0 {
        Seq::empty()
    } else if p(s.last()) {
        kept(s.drop_last(), p).push(s.last())
    } else {
        kept(s.drop_last(), p)
    }
}

/// The list with every element that equals the one before it left out.
pub open spec fn deduped<T>(s: Seq<T>) -> Seq<T>
    decreases s.len(),
{
    if s.len() < 2 {
        s
    } else if s.last() == s[s.len() - 2] {
        deduped(s.drop_last())
    } else {
        deduped(s.drop_last()).push(s.last())
    }
}

/// Nothing occurs twice.
pub open spec fn distinct<T>(s: Seq<T>) -> bool {
    forall|i: int, j: int| 0 <= i < j < s.len() ==> #[trigger] s[i] != #[trigger] s[j]
}

/// No two entries of the list have the same key.
pub open spec fn keys_distinct<T, K>(s: Seq<T>, key: spec_fn(T) -> K) -> bool {
    forall|i: int, j: int| 0 <= i < j < s.len() ==> key(#[trigger] s[i]) != key(#[trigger] s[j])
}

// ---------------------------------------------------------------------------
// Facts about the model
// ---------------------------------------------------------------------------

pub proof fn lemma_first_from<T>(s: Seq<T>, p: spec_fn(T) -> bool, i: int)
    requires
        0 <= i,
    ensures
        match first_from(s, p, i) {
            Some(k) => i <= k < s.len() && p(s[k]) && forall|j: int| i <= j < k ==> !p(#[trigger] s[j]),
            None => forall|j: int| i <= j < s.len() ==> !p(#[trigger] s[j]),
        },
    decreases s.len() - i,
{
    if i < s.len() && !p(s[i]) {
        lemma_first_from(s, p, i + 1);
    }
}

/// The first position is the one with nothing acceptable before it.
pub proof fn lemma_first_is<T>(s: Seq<T>, p: spec_fn(T) -> bool, k: int)
    requires
        0 <= k < s.len(),
        p(s[k]),
        forall|j: int| 0 <= j < k ==> !p(#[trigger] s[j]),
    ensures
        first(s, p) == Some(k),
{
    lemma_first_from(s, p, 0);
}

/// Where nothing is acceptable there is no first position.
pub proof fn lemma_first_none<T>(s: Seq<T>, p: spec_fn(T) -> bool)
    requires
        forall|j: int| 0 <= j < s.len() ==> !p(#[trigger] s[j]),
    ensures
        first(s, p) is None,
{
    lemma_first_from(s, p, 0);
}

/// What is kept was there and is acceptable, and nothing acceptable is lost.
pub proof fn law_kept<T>(s: Seq<T>, p: spec_fn(T) -> bool, x: T)
    ensures
        kept(s, p).contains(x) == (s.contains(x) && p(x)),
        kept(s, p).len() <= s.len(),
    decreases s.len(),
{
    if s.len() > 0 {
        let rest = s.drop_last();
        law_kept(rest, p, x);
        if s.contains(x) {
            let k = choose|k: int| 0 <= k < s.len() && s[k] == x;
            if k < s.len() - 1 {
                assert(rest[k] == x);
            }
        }
        if rest.contains(x) {
            let k = choose|k: int| 0 <= k < rest.len() && rest[k] == x;
            assert(s[k] == x);
        }
        let r = kept(s, p);
        let q = kept(rest, p);
        if p(s.last()) {
            assert(r.last() == s.last());
            if r.contains(x) {
                let k = choose|k: int| 0 <= k < r.len() && r[k] == x;
                if k < r.len() - 1 {
                    assert(q[k] == x);
                } else {
                    assert(s[s.len() - 1] == x);
                }
            }
            if q.contains(x) {
                let k = choose|k: int| 0 <= k < q.len() && q[k] == x;
                assert(r[k] == x);
            }
            if x == s.last() {
                assert(r[r.len() - 1] == x);
            }
        }
    }
}

/// A list of which everything is acceptable is kept whole.
pub proof fn lemma_kept_all<T>(s: Seq<T>, p: spec_fn(T) -> bool)
    requires
        forall|i: int| 0 <= i < s.len() ==> p(#[trigger] s[i]),
    ensures
        kept(s, p) == s,
    decreases s.len(),
{
    if s.len() > 0 {
        assert forall|i: int| 0 <= i < s.drop_last().len() implies p(#[trigger] s.drop_last()[i]) by {
            assert(s.drop_last()[i] == s[i]);
        }
        lemma_kept_all(s.drop_last(), p);
        assert(p(s[s.len() - 1]));
        assert(s =~= s.drop_last().push(s.last()));
    }
}

/// What is kept of a list with distinct keys has distinct keys.
pub proof fn lemma_kept_keys<T, K>(s: Seq<T>, p: spec_fn(T) -> bool, key: spec_fn(T) -> K)
    requires
        keys_distinct(s, key),
    ensures
        keys_distinct(kept(s, p), key),
    decreases s.len(),
{
    if s.len() > 0 {
        let rest = s.drop_last();
        assert forall|i: int, j: int| 0 <= i < j < rest.len() implies key(#[trigger] rest[i]) != key(
            #[trigger] rest[j],
        ) by {
            assert(key(s[i]) != key(s[j]));
        }
        lemma_kept_keys(rest, p, key);
        if p(s.last()) {
            let q = kept(rest, p);
            let r = kept(s, p);
            assert forall|i: int, j: int| 0 <= i < j < r.len() implies key(#[trigger] r[i]) != key(
                #[trigger] r[j],
            ) by {
                assert(q[i] == r[i]);
                if j == r.len() - 1 {
                    assert(q.contains(r[i]));
                    law_kept(rest, p, r[i]);
                    let k = choose|k: int| 0 <= k < rest.len() && rest[k] == r[i];
                    assert(key(s[k]) != key(s[s.len() - 1]));
                } else {
                    assert(q[j] == r[j]);
                }
            }
        }
    }
}

// ---------------------------------------------------------------------------
// Searching
// ---------------------------------------------------------------------------

/// What is searched for in a list.
pub trait Wanted<T: View> {
    /// The values that are searched for.
    spec fn accepts(&self) -> spec_fn(T::V) -> bool;

    /// Whether the value is searched for.
    fn is_met_by(&self, value: &T) -> (r: bool)
        ensures
            r == (self.accepts())(value@),
    ;
}

/// The first position of what is searched for.
pub fn position<T: View, W: Wanted<T>>(list: &Vec<T>, wanted: &W) -> (r: Option<usize>)
    ensures
        match r {
            Some(k) => first(model::views(list@), wanted.accepts()) == Some(k as int) && k
                < list@.len(),
            None => first(model::views(list@), wanted.accepts()) is None,
        },
{
    let ghost all = model::views(list@);
    let ghost p = wanted.accepts();
    let mut i: usize = 0;
    while i < list.len()
        invariant
            i <= list@.len(),
            all == model::views(list@),
            p == wanted.accepts(),
            forall|j: int| 0 <= j < i ==> !p(#[trigger] all[j]),
        decreases list@.len() - i,
    {
        if wanted.is_met_by(&list[i]) {
            assert(p(all[i as int]));
            proof {
                lemma_first_is(all, p, i as int);
            }
            return Some(i);
        }
        assert(!p(all[i as int]));
        i = i + 1;
    }
    proof {
        lemma_first_none(all, p);
    }
    None
}

// ---------------------------------------------------------------------------
// Lists of texts
// ---------------------------------------------------------------------------

impl Ranked for String {
    open spec fn ranks_below(a: Seq<char>, b: Seq<char>) -> bool {
        text::text_less(a, b)
    }

    proof fn lemma_order(a: Seq<char>, b: Seq<char>, c: Seq<char>) {
        text::lemma_text_less_irreflexive(a);
        if text::text_less(a, b) && text::text_less(b, c) {
            text::lemma_text_less_transitive(a, b, c);
        }
        if !text::text_less(b, a) && !text::text_less(c, b) && text::text_less(c, a) {
            text::lemma_text_less_total(b, a);
            text::lemma_text_less_total(c, b);
            if text::text_less(a, b) {
                text::lemma_text_less_transitive(c, a, b);
            }
        }
    }

    fn below(&self, other: &Self) -> (r: bool) {
        let a = chars_of(self.as_str());
        let b = chars_of(other.as_str());
        let mut i: usize = 0;
        assert(a@.skip(0) =~= a@);
        assert(b@.skip(0) =~= b@);
        while i < a.len() && i < b.len()
            invariant
                a@ == self@,
                b@ == other@,
                i <= a@.len(),
                i <= b@.len(),
                text::text_less(a@, b@) == text::text_less(a@.skip(i as int), b@.skip(i as int)),
            decreases a@.len() - i,
        {
            if a[i] != b[i] {
                return a[i] < b[i];
            }
            assert(a@.skip(i as int).drop_first() =~= a@.skip(i + 1));
            assert(b@.skip(i as int).drop_first() =~= b@.skip(i + 1));
            i = i + 1;
        }
        i < b.len()
    }
}

/// Texts in dictionary order, each once.
pub open spec fn listed(s: Seq<Seq<char>>) -> Seq<Seq<char>> {
    deduped(order::sorted::<String>(s))
}

proof fn lemma_deduped_sorted(s: Seq<Seq<char>>)
    requires
        order::in_order::<String>(s),
    ensures
        forall|i: int, j: int|
            0 <= i < j < deduped(s).len() ==> text::text_less(
                #[trigger] deduped(s)[i],
                #[trigger] deduped(s)[j],
            ),
        forall|x: Seq<char>| #[trigger] deduped(s).contains(x) == s.contains(x),
        s.len() > 0 ==> deduped(s).len() > 0 && deduped(s).last() == s.last(),
    decreases s.len(),
{
    if s.len() >= 2 {
        let rest = s.drop_last();
        let d = deduped(s);
        let q = deduped(rest);
        assert(order::in_order::<String>(rest)) by {
            assert forall|i: int, j: int| 0 <= i < j < rest.len() implies !text::text_less(
                #[trigger] rest[j],
                #[trigger] rest[i],
            ) by {
                assert(!<String as Ranked>::ranks_below(s[j], s[i]));
            }
        }
        lemma_deduped_sorted(rest);
        let last = s.last();
        let prev = s[s.len() - 2];
        assert(rest.last() == prev);
        assert(q.last() == prev);
        assert(!<String as Ranked>::ranks_below(s[s.len() - 1], s[s.len() - 2]));
        if last != prev {
            text::lemma_text_less_total(prev, last);
            assert forall|i: int, j: int| 0 <= i < j < d.len() implies text::text_less(
                #[trigger] d[i],
                #[trigger] d[j],
            ) by {
                if j == d.len() - 1 {
                    assert(d[i] == q[i]);
                    if i < q.len() - 1 {
                        assert(text::text_less(q[i], q[q.len() - 1]));
                        text::lemma_text_less_transitive(q[i], prev, last);
                    }
                } else {
                    assert(d[i] == q[i] && d[j] == q[j]);
                }
            }
        }
        assert forall|x: Seq<char>| #[trigger] d.contains(x) == s.contains(x) by {
            if s.contains(x) {
                let k = choose|k: int| 0 <= k < s.len() && s[k] == x;
                if k < s.len() - 1 {
                    assert(rest[k] == x);
                    assert(q.contains(x));
                    let m = choose|m: int| 0 <= m < q.len() && q[m] == x;
                    assert(d[m] == x);
                } else {
                    assert(d[d.len() - 1] == x);
                }
            }
            if d.contains(x) {
                let m = choose|m: int| 0 <= m < d.len() && d[m] == x;
                if m < q.len() {
                    assert(q[m] == x);
                    assert(q.contains(x));
                    assert(rest.contains(x));
                    let k = choose|k: int| 0 <= k < rest.len() && rest[k] == x;
                    assert(s[k] == x);
                } else {
                    assert(s[s.len() - 1] == x);
                }
            }
        }
    }
}

/// A listing holds the same texts, in dictionary order, each once.
pub proof fn law_listed(s: Seq<Seq<char>>)
    ensures
        forall|i: int, j: int|
            0 <= i < j < listed(s).len() ==> text::text_less(
                #[trigger] listed(s)[i],
                #[trigger] listed(s)[j],
            ),
        forall|x: Seq<char>| #[trigger] listed(s).contains(x) == s.contains(x),
        distinct(listed(s)),
{
    broadcast use vstd::seq_lib::group_to_multiset_ensures;

    let t = order::sorted::<String>(s);
    order::law_sorted::<String>(s);
    lemma_deduped_sorted(t);
    assert forall|x: Seq<char>| #[trigger] listed(s).contains(x) == s.contains(x) by {
        assert(t.contains(x) == s.contains(x)) by {
            assert(t.to_multiset().count(x) == s.to_multiset().count(x));
        }
    }
    assert forall|i: int, j: int| 0 <= i < j < listed(s).len() implies #[trigger] listed(s)[i]
        != #[trigger] listed(s)[j] by {
        text::lemma_text_less_irreflexive(listed(s)[i]);
    }
}

/// Leaves out every text that equals the one before it.
fn dedup_texts(v: &Vec<String>) -> (r: Vec<String>)
    ensures
        text::texts(r@) == deduped(text::texts(v@)),
{
    let ghost all = text::texts(v@);
    let mut out: Vec<String> = Vec::new();
    let mut i: usize = 0;
    assert(all.take(0) =~= Seq::empty());
    assert(text::texts(out@) =~= Seq::empty());
    while i < v.len()
        invariant
            all == text::texts(v@),
            i <= v@.len(),
            text::texts(out@) == deduped(all.take(i as int)),
        decreases v@.len() - i,
    {
        let ghost next = all.take(i + 1);
        let ghost before = out@;
        assert(next.drop_last() =~= all.take(i as int));
        assert(next.last() == v@[i as int]@);
        if i == 0 || !same_text(v[i].as_str(), v[i - 1].as_str()) {
            out.push(v[i].clone());
            assert(text::texts(out@) =~= text::texts(before).push(v@[i as int]@));
            if i == 0 {
                assert(all.take(0) =~= Seq::empty());
                assert(deduped(next) =~= text::texts(out@));
            } else {
                assert(next[next.len() - 2] == v@[i - 1]@);
            }
        } else {
            assert(next[next.len() - 2] == v@[i - 1]@);
        }
        i = i + 1;
    }
    assert(all.take(i as int) =~= all);
    out
}

/// Puts texts in dictionary order, each once.
pub fn list_texts(v: Vec<String>) -> (r: Vec<String>)
    ensures
        text::texts(r@) == listed(text::texts(v@)),
{
    let ghost all = text::texts(v@);
    assert(crate::model::views(v@) =~= all);
    let sorted = sort(v);
    assert(crate::model::views(sorted@) =~= text::texts(sorted@));
    dedup_texts(&sorted)
}

/// What is searched for is found at its first place, and not found only where
/// nothing in the list is it.
pub proof fn law_first<T>(s: Seq<T>, p: spec_fn(T) -> bool)
    ensures
        match first(s, p) {
            Some(k) => 0 <= k < s.len() && p(s[k]) && forall|j: int|
                0 <= j < k ==> !p(#[trigger] s[j]),
            None => forall|j: int| 0 <= j < s.len() ==> !p(#[trigger] s[j]),
        },
{
    lemma_first_from(s, p, 0);
}

/// What is kept of a list is kept in its order and as often as it stands there.
pub proof fn law_kept_in_order<T>(a: Seq<T>, b: Seq<T>, p: spec_fn(T) -> bool, x: T)
    ensures
        kept(a + b, p) == kept(a, p) + kept(b, p),
        kept(seq![x], p) == if p(x) {
            seq![x]
        } else {
            Seq::empty()
        },
        a.len() == 0 ==> kept(a, p).len() == 0,
    decreases b.len(),
{
    let one = seq![x];
    assert(one.drop_last() =~= Seq::empty());
    assert(kept(one.drop_last(), p) =~= Seq::empty());
    assert(kept(one, p) =~= if p(x) {
        seq![x]
    } else {
        Seq::empty()
    });
    if b.len() == 0 {
        assert(a + b =~= a);
        assert(kept(a + b, p) =~= kept(a, p) + kept(b, p));
    } else {
        assert((a + b).drop_last() =~= a + b.drop_last());
        assert((a + b).last() == b.last());
        law_kept_in_order(a, b.drop_last(), p, x);
        assert(kept(a + b, p) =~= kept(a, p) + kept(b, p));
    }
}

/// What is found in a list is its first element that is searched for.
pub proof fn law_found<T>(s: Seq<T>, p: spec_fn(T) -> bool, k: int)
    ensures
        0 <= k < s.len() && p(s[k]) && (forall|j: int| 0 <= j < k ==> !p(#[trigger] s[j])) ==> found(
            s,
            p,
        ) == Some(s[k]),
        found(s, p) is None == (forall|j: int| 0 <= j < s.len() ==> !p(#[trigger] s[j])),
{
    law_first(s, p);
    if 0 <= k < s.len() && p(s[k]) && (forall|j: int| 0 <= j < k ==> !p(#[trigger] s[j])) {
        lemma_first_is(s, p, k);
    }
}

} // verus!
