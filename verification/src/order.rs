//! Orders: texts by code point, and a stable sort by any order.

use crate::text::{chars_of, views};
use vstd::prelude::*;

verus! {

// ---------------------------------------------------------------------------
// Texts
// ---------------------------------------------------------------------------

/// Whether `a` stands before `b` in the order of texts: by the first character in
/// which they differ, a proper prefix first.
pub open spec fn text_before(a: Seq<char>, b: Seq<char>) -> bool
    decreases a.len(),
{
    if b.len() == 0 {
        false
    } else if a.len() == 0 {
        true
    } else if a[0] != b[0] {
        a[0] < b[0]
    } else {
        text_before(a.drop_first(), b.drop_first())
    }
}

/// Whether `a` stands before `b` in the order of texts.
pub fn is_text_before(a: &str, b: &str) -> (r: bool)
    ensures
        r == text_before(a@, b@),
{
    let x = chars_of(a);
    let y = chars_of(b);
    let mut i: usize = 0;
    proof {
        assert(x@.skip(0) == x@);
        assert(y@.skip(0) == y@);
    }
    loop
        invariant
            i <= x.len(),
            i <= y.len(),
            text_before(x@.skip(i as int), y@.skip(i as int)) == text_before(a@, b@),
        decreases x.len() - i,
    {
        if i == y.len() {
            return false;
        }
        if i == x.len() {
            return true;
        }
        proof {
            assert(x@.skip(i as int)[0] == x@[i as int]);
            assert(y@.skip(i as int)[0] == y@[i as int]);
            assert(x@.skip(i as int).drop_first() == x@.skip(i + 1));
            assert(y@.skip(i as int).drop_first() == y@.skip(i + 1));
        }
        if x[i] != y[i] {
            return x[i] < y[i];
        }
        i = i + 1;
    }
}

/// Two different texts stand in exactly one order.
pub proof fn lemma_text_order_total(a: Seq<char>, b: Seq<char>)
    ensures
        text_before(a, b) ==> !text_before(b, a),
        !text_before(a, b) && !text_before(b, a) ==> a == b,
    decreases a.len(),
{
    if a.len() > 0 && b.len() > 0 && a[0] == b[0] {
        lemma_text_order_total(a.drop_first(), b.drop_first());
        if !text_before(a, b) && !text_before(b, a) {
            assert(a =~= seq![a[0]] + a.drop_first());
            assert(b =~= seq![b[0]] + b.drop_first());
        }
    } else if a.len() == 0 && b.len() == 0 {
        assert(a =~= b);
    }
}

/// The order of texts is transitive, also where it is read as "not after".
pub proof fn lemma_text_order_transitive(a: Seq<char>, b: Seq<char>, c: Seq<char>)
    requires
        !text_before(b, a),
        !text_before(c, b),
    ensures
        !text_before(c, a),
    decreases a.len(),
{
    if a.len() > 0 && b.len() > 0 && c.len() > 0 {
        if a[0] == b[0] && b[0] == c[0] {
            lemma_text_order_transitive(a.drop_first(), b.drop_first(), c.drop_first());
        }
    }
}

// ---------------------------------------------------------------------------
// Sequences
// ---------------------------------------------------------------------------

/// What a sequence holds after one more item was put behind it.
pub proof fn lemma_push_contains<T>(s: Seq<T>, x: T, y: T)
    ensures
        s.push(x).contains(y) <==> s.contains(y) || y == x,
{
    if s.contains(y) {
        let k = choose|k: int| 0 <= k < s.len() && s[k] == y;
        assert(s.push(x)[k] == y);
    }
    if y == x {
        assert(s.push(x)[s.len() as int] == y);
    }
    if s.push(x).contains(y) && y != x {
        let k = choose|k: int| 0 <= k < s.push(x).len() && s.push(x)[k] == y;
        assert(s[k] == y);
    }
}

/// The items of `v` that `f` picks, in their order.
pub(crate) fn select<T: View, F: Fn(&T) -> bool>(
    v: Vec<T>,
    f: F,
    Ghost(pick): Ghost<spec_fn(T::V) -> bool>,
) -> (r: Vec<T>)
    requires
        forall|a: &T| #[trigger] f.requires((a,)),
        forall|a: &T, c: bool| #[trigger] f.ensures((a,), c) ==> c == pick(a@),
    ensures
        r@.map_values(|x: T| x@) == v@.map_values(|x: T| x@).filter(pick),
{
    let ghost all = v@.map_values(|x: T| x@);
    let mut rest = v;
    let mut out: Vec<T> = Vec::new();
    let ghost mut done: int = 0;
    proof {
        reveal(Seq::filter);
        assert(all.skip(0) =~= all);
        assert(out@.map_values(|x: T| x@) =~= all.take(0).filter(pick));
    }
    while rest.len() > 0
        invariant
            0 <= done <= all.len(),
            rest@.map_values(|x: T| x@) == all.skip(done),
            out@.map_values(|x: T| x@) == all.take(done).filter(pick),
            forall|a: &T| #[trigger] f.requires((a,)),
            forall|a: &T, c: bool| #[trigger] f.ensures((a,), c) ==> c == pick(a@),
        decreases rest.len(),
    {
        let ghost left = rest@;
        let ghost view = out@.map_values(|x: T| x@);
        let x = rest.remove(0);
        let ghost item = x;
        proof {
            reveal(Seq::filter);
            assert(left.map_values(|x: T| x@).len() == left.len());
            assert(left.map_values(|x: T| x@)[0] == left[0]@);
            assert(all.skip(done)[0] == all[done]);
            assert forall|k: int| 0 <= k < rest@.len() implies (#[trigger] rest@[k])@ == all[done + 1
                + k] by {
                assert(left.map_values(|x: T| x@)[k + 1] == left[k + 1]@);
                assert(all.skip(done)[k + 1] == all[done + k + 1]);
            }
            assert(rest@.map_values(|x: T| x@) =~= all.skip(done + 1));
            assert(all.take(done + 1).drop_last() =~= all.take(done));
            assert(all.take(done + 1).last() == item@);
        }
        if f(&x) {
            out.push(x);
            proof {
                assert(out@.map_values(|x: T| x@) =~= view.push(item@));
            }
        }
        proof {
            done = done + 1;
        }
    }
    proof {
        assert(all.skip(done).len() == 0);
        assert(all.take(done) =~= all);
    }
    out
}

/// The first items of `v`, at most `n`.
pub(crate) fn shorten<T>(v: Vec<T>, n: usize) -> (r: Vec<T>)
    ensures
        r@ == if v@.len() <= n {
            v@
        } else {
            v@.take(n as int)
        },
{
    let mut v = v;
    if v.len() > n {
        let ghost full = v@;
        v.truncate(n);
        proof {
            assert(v@ =~= full.take(n as int));
        }
    }
    v
}

/// The first items of a sequence, at most `n`.
pub open spec fn at_most<T>(s: Seq<T>, n: int) -> Seq<T> {
    if s.len() <= n {
        s
    } else {
        s.take(n)
    }
}

// ---------------------------------------------------------------------------
// Stable sorting
// ---------------------------------------------------------------------------

/// `s` with `x` put in behind everything that need not stand after it.
pub open spec fn inserted<T>(s: Seq<T>, x: T, before: spec_fn(T, T) -> bool) -> Seq<T>
    decreases s.len(),
{
    if s.len() > 0 && before(x, s.last()) {
        inserted(s.drop_last(), x, before).push(s.last())
    } else {
        s.push(x)
    }
}

/// `s` in the order of `before`; what is equal in that order stays as it was.
pub open spec fn sorted_by<T>(s: Seq<T>, before: spec_fn(T, T) -> bool) -> Seq<T>
    decreases s.len(),
{
    if s.len() == 0 {
        s
    } else {
        inserted(sorted_by(s.drop_last(), before), s.last(), before)
    }
}

/// `before` is the strict part of an order in which any two items compare.
pub open spec fn is_order<T>(before: spec_fn(T, T) -> bool) -> bool {
    &&& forall|a: T, b: T| #[trigger] before(a, b) ==> !before(b, a)
    &&& forall|a: T, b: T, c: T|
        !#[trigger] before(b, a) && !#[trigger] before(c, b) ==> !before(c, a)
}

/// No item of `s` stands behind one that it comes before.
pub open spec fn in_order<T>(s: Seq<T>, before: spec_fn(T, T) -> bool) -> bool {
    forall|i: int, j: int| 0 <= i < j < s.len() ==> !before(#[trigger] s[j], #[trigger] s[i])
}

/// Items that compare as equal to `x`.
pub open spec fn level_with<T>(x: T, before: spec_fn(T, T) -> bool) -> spec_fn(T) -> bool {
    |y: T| !before(x, y) && !before(y, x)
}

proof fn lemma_inserted<T>(s: Seq<T>, x: T, before: spec_fn(T, T) -> bool)
    ensures
        inserted(s, x, before).len() == s.len() + 1,
        inserted(s, x, before).to_multiset() == s.to_multiset().insert(x),
    decreases s.len(),
{
    broadcast use vstd::seq_lib::group_to_multiset_ensures;

    if s.len() > 0 && before(x, s.last()) {
        let rest = s.drop_last();
        lemma_inserted(rest, x, before);
        assert(s =~= rest.push(s.last()));
        assert(s.to_multiset() == rest.to_multiset().insert(s.last()));
        assert(inserted(s, x, before).to_multiset() == rest.to_multiset().insert(x).insert(
            s.last(),
        ));
        assert(rest.to_multiset().insert(x).insert(s.last()) =~= rest.to_multiset().insert(
            s.last(),
        ).insert(x));
    }
}

/// A sort keeps every item, as often as it occurs.
pub proof fn lemma_sort_keeps_items<T>(s: Seq<T>, before: spec_fn(T, T) -> bool)
    ensures
        sorted_by(s, before).len() == s.len(),
        sorted_by(s, before).to_multiset() == s.to_multiset(),
    decreases s.len(),
{
    broadcast use vstd::seq_lib::group_to_multiset_ensures;

    if s.len() > 0 {
        lemma_sort_keeps_items(s.drop_last(), before);
        lemma_inserted(sorted_by(s.drop_last(), before), s.last(), before);
        assert(s =~= s.drop_last().push(s.last()));
    }
}

/// What a sort holds, it was given.
pub proof fn lemma_sort_contains<T>(s: Seq<T>, before: spec_fn(T, T) -> bool, x: T)
    ensures
        sorted_by(s, before).contains(x) <==> s.contains(x),
{
    broadcast use vstd::seq_lib::group_to_multiset_ensures;

    lemma_sort_keeps_items(s, before);
    assert(sorted_by(s, before).to_multiset().count(x) == s.to_multiset().count(x));
}

proof fn lemma_inserted_in_order<T>(s: Seq<T>, x: T, before: spec_fn(T, T) -> bool)
    requires
        is_order(before),
        in_order(s, before),
    ensures
        in_order(inserted(s, x, before), before),
        forall|k: int|
            0 <= k < inserted(s, x, before).len() ==> s.contains(
                #[trigger] inserted(s, x, before)[k],
            ) || inserted(s, x, before)[k] == x,
    decreases s.len(),
{
    let r = inserted(s, x, before);
    if s.len() > 0 && before(x, s.last()) {
        let rest = s.drop_last();
        lemma_inserted_in_order(rest, x, before);
        let front = inserted(rest, x, before);
        assert forall|k: int| 0 <= k < r.len() implies s.contains(#[trigger] r[k]) || r[k] == x by {
            if k < front.len() {
                assert(rest.contains(front[k]) || front[k] == x);
                if rest.contains(front[k]) {
                    let m = choose|m: int| 0 <= m < rest.len() && rest[m] == front[k];
                    assert(s[m] == front[k]);
                }
            } else {
                assert(r[k] == s[s.len() - 1]);
            }
        }
        assert forall|i: int, j: int| 0 <= i < j < r.len() implies !before(
            #[trigger] r[j],
            #[trigger] r[i],
        ) by {
            if j < front.len() {
                assert(!before(front[j], front[i]));
            } else {
                assert(r[j] == s.last());
                assert(r[i] == front[i]);
                if rest.contains(front[i]) {
                    let m = choose|m: int| 0 <= m < rest.len() && rest[m] == front[i];
                    assert(!before(s[s.len() - 1], s[m]));
                } else {
                    assert(front[i] == x);
                }
            }
        }
    } else {
        assert forall|k: int| 0 <= k < r.len() implies s.contains(#[trigger] r[k]) || r[k] == x by {
            if k < s.len() {
                assert(r[k] == s[k]);
            }
        }
        assert forall|i: int, j: int| 0 <= i < j < r.len() implies !before(
            #[trigger] r[j],
            #[trigger] r[i],
        ) by {
            if j == s.len() {
                assert(r[i] == s[i]);
                if i < s.len() - 1 {
                    assert(!before(s[s.len() - 1], s[i]));
                    assert(!before(x, s[s.len() - 1]));
                }
            } else {
                assert(r[j] == s[j] && r[i] == s[i]);
            }
        }
    }
}

/// A sort stands in order.
pub proof fn lemma_sort_in_order<T>(s: Seq<T>, before: spec_fn(T, T) -> bool)
    requires
        is_order(before),
    ensures
        in_order(sorted_by(s, before), before),
    decreases s.len(),
{
    if s.len() > 0 {
        lemma_sort_in_order(s.drop_last(), before);
        lemma_inserted_in_order(sorted_by(s.drop_last(), before), s.last(), before);
    }
}

/// Sorting looks at nothing but how the items compare with each other.
pub proof fn lemma_sort_alike<T>(
    s: Seq<T>,
    f: spec_fn(T, T) -> bool,
    g: spec_fn(T, T) -> bool,
)
    requires
        forall|x: T, y: T| s.contains(x) && s.contains(y) ==> #[trigger] f(x, y) == g(x, y),
    ensures
        sorted_by(s, f) == sorted_by(s, g),
    decreases s.len(),
{
    if s.len() > 0 {
        let rest = s.drop_last();
        assert(s =~= rest.push(s.last()));
        assert forall|x: T| #[trigger] rest.contains(x) implies s.contains(x) by {
            lemma_push_contains(rest, s.last(), x);
        }
        lemma_sort_alike(rest, f, g);
        lemma_push_contains(rest, s.last(), s.last());
        assert forall|y: T| sorted_by(rest, f).contains(y) implies #[trigger] f(s.last(), y) == g(
            s.last(),
            y,
        ) by {
            lemma_sort_contains(rest, f, y);
        }
        lemma_inserted_alike(sorted_by(rest, f), s.last(), f, g);
    }
}

proof fn lemma_inserted_alike<T>(
    s: Seq<T>,
    x: T,
    f: spec_fn(T, T) -> bool,
    g: spec_fn(T, T) -> bool,
)
    requires
        forall|y: T| s.contains(y) ==> #[trigger] f(x, y) == g(x, y),
    ensures
        inserted(s, x, f) == inserted(s, x, g),
    decreases s.len(),
{
    if s.len() > 0 {
        let rest = s.drop_last();
        assert(s.contains(s[s.len() - 1]));
        assert(f(x, s.last()) == g(x, s.last()));
        assert(s =~= rest.push(s.last()));
        assert forall|y: T| rest.contains(y) implies #[trigger] f(x, y) == g(x, y) by {
            lemma_push_contains(rest, s.last(), y);
        }
        lemma_inserted_alike(rest, x, f, g);
    }
}

proof fn lemma_inserted_stable<T>(s: Seq<T>, x: T, before: spec_fn(T, T) -> bool, y: T)
    requires
        is_order(before),
    ensures
        inserted(s, x, before).filter(level_with(y, before)) == s.push(x).filter(
            level_with(y, before),
        ),
    decreases s.len(),
{
    let p = level_with(y, before);
    reveal(Seq::filter);
    if s.len() > 0 && before(x, s.last()) {
        let rest = s.drop_last();
        let front = inserted(rest, x, before);
        lemma_inserted_stable(rest, x, before, y);
        assert(inserted(s, x, before).drop_last() =~= front);
        assert(s.push(x).drop_last() =~= s);
        assert(rest.push(x).drop_last() =~= rest);
        assert(!(p(x) && p(s.last()))) by {
            if p(x) && p(s.last()) {
                assert(!before(y, x) && !before(s.last(), y));
                assert(!before(y, s.last()) && !before(x, y));
                assert(!before(x, s.last()));
            }
        }
        assert(inserted(s, x, before).last() == s.last());
        assert(s.push(x).last() == x);
        assert(rest.push(x).last() == x);
        assert(rest.push(x).filter(p) == if p(x) {
            rest.filter(p).push(x)
        } else {
            rest.filter(p)
        });
        assert(s.filter(p) == if p(s.last()) {
            rest.filter(p).push(s.last())
        } else {
            rest.filter(p)
        });
        assert(s.push(x).filter(p) == if p(x) {
            s.filter(p).push(x)
        } else {
            s.filter(p)
        });
        assert(inserted(s, x, before).filter(p) == if p(s.last()) {
            front.filter(p).push(s.last())
        } else {
            front.filter(p)
        });
    }
}

/// A sort is stable: items that compare as equal keep the order they came in.
pub proof fn law_sort_stable<T>(s: Seq<T>, before: spec_fn(T, T) -> bool, y: T)
    requires
        is_order(before),
    ensures
        sorted_by(s, before).filter(level_with(y, before)) == s.filter(level_with(y, before)),
    decreases s.len(),
{
    let p = level_with(y, before);
    reveal(Seq::filter);
    if s.len() > 0 {
        let rest = s.drop_last();
        law_sort_stable(rest, before, y);
        lemma_inserted_stable(sorted_by(rest, before), s.last(), before, y);
        assert(sorted_by(rest, before).push(s.last()).drop_last() =~= sorted_by(rest, before));
    }
}

/// Where items that compare as equal are equal, there is one way to put them in
/// order.
pub proof fn lemma_order_unique<T>(a: Seq<T>, b: Seq<T>, before: spec_fn(T, T) -> bool)
    requires
        in_order(a, before),
        in_order(b, before),
        a.to_multiset() == b.to_multiset(),
        forall|x: T, y: T| !#[trigger] before(x, y) && !before(y, x) ==> x == y,
    ensures
        a == b,
    decreases a.len(),
{
    broadcast use vstd::seq_lib::group_to_multiset_ensures;

    assert(a.len() == a.to_multiset().len());
    assert(b.len() == b.to_multiset().len());
    if a.len() == 0 {
        assert(a =~= b);
    } else {
        let x = a.last();
        let y = b.last();
        assert(b.contains(y)) by {
            assert(b[b.len() - 1] == y);
        }
        assert(a.contains(x)) by {
            assert(a[a.len() - 1] == x);
        }
        assert(a.to_multiset().count(y) > 0);
        assert(b.to_multiset().count(x) > 0);
        let i = choose|i: int| 0 <= i < a.len() && a[i] == y;
        let j = choose|j: int| 0 <= j < b.len() && b[j] == x;
        assert(x == y) by {
            if i < a.len() - 1 {
                assert(!before(a[a.len() - 1], a[i]));
            } else {
                assert(x == y);
            }
            if j < b.len() - 1 {
                assert(!before(b[b.len() - 1], b[j]));
            } else {
                assert(x == y);
            }
        }
        let c = a.drop_last();
        let d = b.drop_last();
        assert(a =~= c.push(x));
        assert(b =~= d.push(x));
        assert(a.to_multiset() == c.to_multiset().insert(x));
        assert(b.to_multiset() == d.to_multiset().insert(x));
        assert(c.to_multiset() =~= a.to_multiset().remove(x));
        assert(d.to_multiset() =~= b.to_multiset().remove(x));
        assert forall|m: int, n: int| 0 <= m < n < c.len() implies !before(
            #[trigger] c[n],
            #[trigger] c[m],
        ) by {
            assert(!before(a[n], a[m]));
        }
        assert forall|m: int, n: int| 0 <= m < n < d.len() implies !before(
            #[trigger] d[n],
            #[trigger] d[m],
        ) by {
            assert(!before(b[n], b[m]));
        }
        lemma_order_unique(c, d, before);
    }
}

/// A sort of texts does not depend on the order they came in.
pub proof fn lemma_text_sort_unique(a: Seq<Seq<char>>, b: Seq<Seq<char>>)
    requires
        a.to_multiset() == b.to_multiset(),
    ensures
        sorted_by(a, |x: Seq<char>, y: Seq<char>| text_before(x, y)) == sorted_by(
            b,
            |x: Seq<char>, y: Seq<char>| text_before(x, y),
        ),
{
    let before = |x: Seq<char>, y: Seq<char>| text_before(x, y);
    assert(is_order(before)) by {
        assert forall|x: Seq<char>, y: Seq<char>| #[trigger] before(x, y) implies !before(y, x) by {
            lemma_text_order_total(x, y);
        }
        assert forall|x: Seq<char>, y: Seq<char>, z: Seq<char>|
            !#[trigger] before(y, x) && !#[trigger] before(z, y) implies !before(z, x) by {
            lemma_text_order_transitive(x, y, z);
        }
    }
    assert forall|x: Seq<char>, y: Seq<char>| !#[trigger] before(x, y) && !before(
        y,
        x,
    ) implies x == y by {
        lemma_text_order_total(x, y);
    }
    lemma_sort_in_order(a, before);
    lemma_sort_in_order(b, before);
    lemma_sort_keeps_items(a, before);
    lemma_sort_keeps_items(b, before);
    lemma_order_unique(sorted_by(a, before), sorted_by(b, before), before);
}

/// The items of `v` in the order that `f` decides.
pub(crate) fn stable_sort<T: View, F: Fn(&T, &T) -> bool>(
    v: Vec<T>,
    f: F,
    Ghost(before): Ghost<spec_fn(T::V, T::V) -> bool>,
) -> (r: Vec<T>)
    requires
        forall|a: &T, b: &T| #[trigger] f.requires((a, b)),
        forall|a: &T, b: &T, c: bool| #[trigger] f.ensures((a, b), c) ==> c == before(a@, b@),
    ensures
        r@.map_values(|x: T| x@) == sorted_by(v@.map_values(|x: T| x@), before),
{
    let ghost all = v@.map_values(|x: T| x@);
    let mut rest = v;
    let mut out: Vec<T> = Vec::new();
    let ghost mut done: int = 0;
    proof {
        assert(out@.map_values(|x: T| x@) =~= Seq::<T::V>::empty());
        assert(all.take(0) =~= Seq::<T::V>::empty());
    }
    while rest.len() > 0
        invariant
            0 <= done <= all.len(),
            rest@.map_values(|x: T| x@) == all.skip(done),
            out@.map_values(|x: T| x@) == sorted_by(all.take(done), before),
            forall|a: &T, b: &T| #[trigger] f.requires((a, b)),
            forall|a: &T, b: &T, c: bool| #[trigger] f.ensures((a, b), c) ==> c == before(a@, b@),
        decreases rest.len(),
    {
        let ghost left = rest@;
        let ghost view = out@.map_values(|x: T| x@);
        let x = rest.remove(0);
        proof {
            assert(left.map_values(|x: T| x@).len() == left.len());
            assert(left.map_values(|x: T| x@)[0] == left[0]@);
            assert(all.skip(done)[0] == all[done]);
            assert(x == left[0]);
            assert(rest@ == left.remove(0));
            assert forall|k: int| 0 <= k < rest@.len() implies (#[trigger] rest@[k])@ == all[done + 1 + k] by {
                assert(left.map_values(|x: T| x@)[k + 1] == left[k + 1]@);
                assert(all.skip(done)[k + 1] == all[done + k + 1]);
            }
            assert(x@ == all[done]);
            assert(rest@.map_values(|x: T| x@) =~= all.skip(done + 1));
        }
        let mut at: usize = out.len();
        proof {
            assert(view.take(at as int) =~= view);
            assert(view.skip(at as int) =~= Seq::<T::V>::empty());
            assert(inserted(view.take(at as int), x@, before) + view.skip(at as int) =~= inserted(
                view,
                x@,
                before,
            ));
        }
        while at > 0 && f(&x, &out[at - 1])
            invariant
                at <= out.len(),
                view == out@.map_values(|x: T| x@),
                inserted(view.take(at as int), x@, before) + view.skip(at as int) == inserted(
                    view,
                    x@,
                    before,
                ),
                forall|a: &T, b: &T| #[trigger] f.requires((a, b)),
                forall|a: &T, b: &T, c: bool| #[trigger]
                    f.ensures((a, b), c) ==> c == before(a@, b@),
            decreases at,
        {
            proof {
                let front = view.take(at as int);
                assert(front.last() == out@[at - 1]@);
                assert(front.drop_last() =~= view.take(at - 1));
                assert(inserted(view.take(at - 1), x@, before) + view.skip(at - 1) =~= inserted(
                    front,
                    x@,
                    before,
                ) + view.skip(at as int));
            }
            at = at - 1;
        }
        proof {
            let front = view.take(at as int);
            if at > 0 {
                assert(front.last() == out@[at - 1]@);
                assert(!before(x@, front.last()));
            }
            assert(inserted(front, x@, before) == front.push(x@));
            assert(all.take(done + 1).drop_last() =~= all.take(done));
            assert(all.take(done + 1).last() == x@);
        }
        let ghost kept = out@;
        let ghost item = x;
        out.insert(at, x);
        proof {
            assert(out@ =~= kept.insert(at as int, item));
            assert(out@.map_values(|x: T| x@) =~= view.take(at as int).push(item@) + view.skip(
                at as int,
            ));
            done = done + 1;
        }
    }
    proof {
        assert(all.skip(done).len() == 0);
        assert(all.take(done) =~= all);
    }
    out
}

/// Strings in the order of texts.
pub fn sort_texts(v: Vec<String>) -> (r: Vec<String>)
    ensures
        views(r@) == sorted_by(views(v@), |a: Seq<char>, b: Seq<char>| text_before(a, b)),
{
    let f = |a: &String, b: &String| -> (c: bool)
        ensures
            c == text_before(a@, b@),
        { is_text_before(a.as_str(), b.as_str()) };
    let r = stable_sort(v, f, Ghost(|a: Seq<char>, b: Seq<char>| text_before(a, b)));
    r
}

} // verus!
