//! What the search for facts that say the same promises, and what is done about them.

use crate::dedup::{
    candidates, chosen_pairs, couple_text, decided, decision, decisions_in, disjoint_pairs,
    is_fact, lemma_disjoint, lemma_rows, lemma_with_raised, lemma_without, may_be_same, overlap,
    pair_before, pair_of, raised, row, rows, with_raised, Action, PairView,
};
use crate::json::JsonView;
use crate::memory::{FactView, StoreView};
use crate::order::{sorted_by, text_before};
use crate::proactive::bigrams;
use crate::text::decimal;
use crate::text_laws::{lemma_stands_in_sum, stands_in};
use vstd::prelude::*;

verus! {

/// Whether more than half of what two texts are made of, pair by pair of neighbouring
/// characters, is in both of them.
pub open spec fn more_than_half_alike(a: Seq<char>, b: Seq<char>) -> bool {
    a.len() >= 2 && b.len() >= 2 && 4 * bigrams(a).intersect(bigrams(b)).len() > bigrams(a).len()
        + bigrams(b).len()
}

/// Whether two facts are worth asking about: two of them, about one entity, and more than
/// half alike.
pub open spec fn worth_asking(a: FactView, b: FactView) -> bool {
    a.entity == b.entity && a.id != b.id && more_than_half_alike(a.text, b.text)
}

/// How alike two facts are is the doubled number of pairs of neighbouring characters in both
/// texts over the number in the one and the number in the other.
pub proof fn law_worth_asking(a: FactView, b: FactView)
    ensures
        may_be_same(a, b) <==> worth_asking(a, b),
{
}

/// In each couple that is asked about, the first fact is never the newer one: the earlier
/// date comes first. The two are the facts at two different places of the memory, and are
/// worth asking about. Of two facts of one date the one that stands first comes first.
pub proof fn law_older_fact_comes_first(facts: Seq<FactView>, max_pairs: int, a: int)
    requires
        0 <= a < candidates(facts, max_pairs).len(),
    ensures
        ({
            let c = candidates(facts, max_pairs)[a];
            let p = chosen_pairs(facts, max_pairs)[a];
            &&& !text_before(c.1.created_at, c.0.created_at)
            &&& 0 <= p.i < p.j < facts.len()
            &&& (c.0 == facts[p.i] && c.1 == facts[p.j]) || (c.0 == facts[p.j] && c.1
                == facts[p.i])
            &&& c.0.created_at == c.1.created_at ==> c.0 == facts[p.i] && c.1 == facts[p.j]
            &&& worth_asking(c.0, c.1)
        }),
{
    crate::dedup::law_candidates(facts, max_pairs);
    let p = chosen_pairs(facts, max_pairs)[a];
    let x = facts[p.i];
    let y = facts[p.j];
    crate::order::lemma_text_order_total(x.created_at, y.created_at);
    assert(bigrams(x.text).intersect(bigrams(y.text)) =~= bigrams(y.text).intersect(
        bigrams(x.text),
    ));
}

proof fn lemma_in_row(facts: Seq<FactView>, i: int, j: int, upto: int)
    requires
        0 <= i < j < upto <= facts.len(),
        may_be_same(facts[i], facts[j]),
    ensures
        row(facts, i, upto).contains(pair_of(facts, i, j)),
    decreases upto,
{
    let p = pair_of(facts, i, j);
    let rest = row(facts, i, upto - 1);
    if j < upto - 1 {
        lemma_in_row(facts, i, j, upto - 1);
    }
    crate::order::lemma_push_contains(rest, pair_of(facts, i, upto - 1), p);
}

proof fn lemma_in_rows(facts: Seq<FactView>, i: int, j: int, n: int)
    requires
        0 <= i < n <= facts.len(),
        i < j < facts.len(),
        may_be_same(facts[i], facts[j]),
    ensures
        rows(facts, n).contains(pair_of(facts, i, j)),
    decreases n,
{
    let p = pair_of(facts, i, j);
    let a = rows(facts, n - 1);
    let b = row(facts, n - 1, facts.len() as int);
    if i < n - 1 {
        lemma_in_rows(facts, i, j, n - 1);
        let k = choose|k: int| 0 <= k < a.len() && a[k] == p;
        assert((a + b)[k] == p);
    } else {
        lemma_in_row(facts, i, j, facts.len() as int);
        let k = choose|k: int| 0 <= k < b.len() && b[k] == p;
        assert((a + b)[a.len() + k] == p);
    }
}

/// A pair by its likeness, none where the likeness is no number.
spec fn likeness(p: PairView) -> (int, int) {
    if p.den > 0 {
        (p.num, p.den)
    } else {
        (0, 1)
    }
}

spec fn more_alike(a: PairView, b: PairView) -> bool {
    likeness(a).0 * likeness(b).1 > likeness(b).0 * likeness(a).1
}

proof fn lemma_more_alike_is_order()
    ensures
        crate::order::is_order(|a: PairView, b: PairView| more_alike(a, b)),
{
    let before = |a: PairView, b: PairView| more_alike(a, b);
    assert forall|a: PairView, b: PairView, c: PairView|
        !#[trigger] before(b, a) && !#[trigger] before(c, b) implies !before(c, a) by {
        let (x, y, z) = (likeness(a), likeness(b), likeness(c));
        assert(z.0 * x.1 <= x.0 * z.1) by (nonlinear_arith)
            requires
                y.0 * x.1 <= x.0 * y.1,
                z.0 * y.1 <= y.0 * z.1,
                x.1 > 0,
                y.1 > 0,
                z.1 > 0,
        ;
    }
}

proof fn lemma_rows_positive(facts: Seq<FactView>, p: PairView)
    requires
        rows(facts, facts.len() as int).contains(p),
    ensures
        p.den > 0,
        p == pair_of(facts, p.i, p.j),
{
    lemma_rows(facts, facts.len() as int, p);
    lemma_rows_pair(facts, facts.len() as int, p);
    crate::proactive::law_similarity_bounded(facts[p.i].text, facts[p.j].text);
}

proof fn lemma_rows_pair(facts: Seq<FactView>, n: int, p: PairView)
    requires
        rows(facts, n).contains(p),
    ensures
        p == pair_of(facts, p.i, p.j),
    decreases n,
{
    if n > 0 {
        let a = rows(facts, n - 1);
        let b = row(facts, n - 1, facts.len() as int);
        let k = choose|k: int| 0 <= k < (a + b).len() && (a + b)[k] == p;
        if k < a.len() {
            assert(a[k] == p);
            lemma_rows_pair(facts, n - 1, p);
        } else {
            assert(b[k - a.len()] == p);
            lemma_row_pair(facts, n - 1, facts.len() as int, p);
        }
    }
}

proof fn lemma_row_pair(facts: Seq<FactView>, i: int, upto: int, p: PairView)
    requires
        row(facts, i, upto).contains(p),
    ensures
        p == pair_of(facts, p.i, p.j),
    decreases upto - i,
{
    if upto > i + 1 {
        let rest = row(facts, i, upto - 1);
        if rest.contains(p) {
            lemma_row_pair(facts, i, upto - 1, p);
        } else {
            crate::order::lemma_push_contains(rest, pair_of(facts, i, upto - 1), p);
        }
    }
}

proof fn lemma_disjoint_covers(pairs: Seq<PairView>, m: int)
    requires
        0 <= m < pairs.len(),
    ensures
        exists|k: int, n: int|
            0 <= k < disjoint_pairs(pairs).len() && 0 <= n <= m && (#[trigger] disjoint_pairs(
                pairs,
            )[k]) == (#[trigger] pairs[n]) && (n == m || overlap(pairs[n], pairs[m])),
    decreases pairs.len(),
{
    let rest = pairs.drop_last();
    let kept = disjoint_pairs(rest);
    let all = disjoint_pairs(pairs);
    if m < rest.len() {
        lemma_disjoint_covers(rest, m);
        let (k, n) = choose|k: int, n: int|
            0 <= k < kept.len() && 0 <= n <= m && (#[trigger] kept[k]) == (#[trigger] rest[n]) && (n
                == m || overlap(rest[n], rest[m]));
        assert(all[k] == kept[k]);
        assert(pairs[n] == rest[n] && pairs[m] == rest[m]);
    } else if exists|k: int| 0 <= k < kept.len() && overlap(#[trigger] kept[k], pairs.last()) {
        let k = choose|k: int| 0 <= k < kept.len() && overlap(#[trigger] kept[k], pairs.last());
        lemma_disjoint(rest);
        assert(rest.contains(kept[k]));
        let n = choose|n: int| 0 <= n < rest.len() && rest[n] == kept[k];
        assert(all[k] == kept[k]);
        assert(pairs[n] == rest[n]);
    } else {
        assert(all[kept.len() as int] == pairs[m]);
    }
}

/// Two facts that are worth asking about are asked about, unless one of them is in a couple
/// that is at least as alike, or as many couples as asked for are at least as alike.
pub proof fn law_alike_facts_are_asked_about(facts: Seq<FactView>, max_pairs: int, i: int, j: int)
    requires
        0 <= i < j < facts.len(),
        worth_asking(facts[i], facts[j]),
    ensures
        ({
            let r = chosen_pairs(facts, max_pairs);
            let p = pair_of(facts, i, j);
            let limit = if max_pairs < 1 {
                1
            } else {
                max_pairs
            };
            &&& r.len() <= limit
            &&& {
                ||| exists|k: int|
                    0 <= k < r.len() && ((#[trigger] r[k]).i == i || r[k].i == j || r[k].j == i
                        || r[k].j == j) && r[k].num * p.den >= p.num * r[k].den
                ||| r.len() == limit && forall|k: int|
                    0 <= k < r.len() ==> (#[trigger] r[k]).num * p.den >= p.num * r[k].den
            }
        }),
{
    let before = |a: PairView, b: PairView| pair_before(a, b);
    let clean = |a: PairView, b: PairView| more_alike(a, b);
    let all = rows(facts, facts.len() as int);
    let sorted = sorted_by(all, before);
    let d = disjoint_pairs(sorted);
    let r = chosen_pairs(facts, max_pairs);
    let p = pair_of(facts, i, j);
    lemma_in_rows(facts, i, j, facts.len() as int);
    assert forall|x: PairView, y: PairView| all.contains(x) && all.contains(y) implies #[trigger] before(
        x,
        y,
    ) == clean(x, y) by {
        lemma_rows_positive(facts, x);
        lemma_rows_positive(facts, y);
    }
    crate::order::lemma_sort_alike(all, before, clean);
    lemma_more_alike_is_order();
    crate::order::lemma_sort_in_order(all, clean);
    crate::order::lemma_sort_contains(all, before, p);
    let m = choose|m: int| 0 <= m < sorted.len() && sorted[m] == p;
    lemma_disjoint_covers(sorted, m);
    let (k, n) = choose|k: int, n: int|
        0 <= k < d.len() && 0 <= n <= m && (#[trigger] d[k]) == (#[trigger] sorted[n]) && (n == m
            || overlap(sorted[n], sorted[m]));
    lemma_disjoint_sorted(sorted, clean);
    lemma_rows_positive(facts, p);
    assert forall|a: int| 0 <= a <= k && a < d.len() implies (#[trigger] d[a]).num * p.den >= p.num
        * d[a].den by {
        lemma_disjoint(sorted);
        assert(sorted.contains(d[a]));
        crate::order::lemma_sort_contains(all, before, d[a]);
        lemma_rows_positive(facts, d[a]);
        assert(sorted.contains(d[k]));
        crate::order::lemma_sort_contains(all, before, d[k]);
        lemma_rows_positive(facts, d[k]);
        assert(!clean(sorted[m], sorted[n])) by {
            if n < m {
                assert(!clean(sorted[m], sorted[n]));
            }
        }
        if a < k {
            assert(!clean(d[k], d[a]));
        }
        let (x, y, z) = (d[a], d[k], p);
        assert(x.num * z.den >= z.num * x.den) by (nonlinear_arith)
            requires
                x.num * y.den >= y.num * x.den,
                y.num * z.den >= z.num * y.den,
                x.den > 0,
                y.den > 0,
                z.den > 0,
        ;
    }
    assert(forall|a: int| 0 <= a < r.len() ==> #[trigger] r[a] == d[a]);
    if k < r.len() {
        assert(overlap(r[k], p));
    } else {
        assert forall|a: int| 0 <= a < r.len() implies (#[trigger] r[a]).num * p.den >= p.num
            * r[a].den by {
            assert(d[a].num * p.den >= p.num * d[a].den);
        }
    }
}

proof fn lemma_disjoint_sorted(pairs: Seq<PairView>, before: spec_fn(PairView, PairView) -> bool)
    requires
        crate::order::in_order(pairs, before),
        crate::order::is_order(before),
    ensures
        crate::order::in_order(disjoint_pairs(pairs), before),
        forall|k: int|
            0 <= k < disjoint_pairs(pairs).len() && pairs.len() > 0 ==> !before(
                pairs.last(),
                #[trigger] disjoint_pairs(pairs)[k],
            ),
    decreases pairs.len(),
{
    if pairs.len() > 0 {
        let rest = pairs.drop_last();
        let kept = disjoint_pairs(rest);
        let all = disjoint_pairs(pairs);
        assert forall|i: int, j: int| 0 <= i < j < rest.len() implies !before(
            #[trigger] rest[j],
            #[trigger] rest[i],
        ) by {
            assert(!before(pairs[j], pairs[i]));
        }
        lemma_disjoint_sorted(rest, before);
        assert forall|k: int| 0 <= k < all.len() implies !before(
            pairs.last(),
            #[trigger] all[k],
        ) by {
            if k < kept.len() {
                assert(all[k] == kept[k]);
                assert(!before(rest.last(), kept[k]));
                assert(!before(pairs[rest.len() as int], pairs[rest.len() - 1]));
            } else {
                assert(all[k] == pairs.last());
                if before(all[k], all[k]) {
                    assert(!before(all[k], all[k]));
                }
            }
        }
        assert forall|i: int, j: int| 0 <= i < j < all.len() implies !before(
            #[trigger] all[j],
            #[trigger] all[i],
        ) by {
            assert(all[i] == kept[i]);
            if j < kept.len() {
                assert(all[j] == kept[j]);
            }
        }
    }
}

// ---------------------------------------------------------------------------
// The question and the answer
// ---------------------------------------------------------------------------

/// In the question the first fact of a couple is the one that exists, and the second the
/// candidate, each by its id and its text.
pub proof fn law_couple_text(n: int, c: (FactView, FactView))
    ensures
        stands_in(couple_text(n, c), "existing("@ + c.0.id + "): "@ + c.0.text),
        stands_in(couple_text(n, c), "candidate("@ + c.1.id + "): "@ + c.1.text),
        (decimal(n) + "."@).is_prefix_of(couple_text(n, c)),
{
    let first = "existing("@ + c.0.id + "): "@ + c.0.text;
    let second = "candidate("@ + c.1.id + "): "@ + c.1.text;
    let r = couple_text(n, c);
    reveal_strlit(".\nexisting(");
    reveal_strlit("existing(");
    reveal_strlit("\ncandidate(");
    reveal_strlit("candidate(");
    reveal_strlit(".");
    reveal_strlit(".\n");
    reveal_strlit("\n");
    assert(".\nexisting("@ =~= ".\n"@ + "existing("@);
    assert("\ncandidate("@ =~= "\n"@ + "candidate("@);
    assert(r =~= (decimal(n) + ".\n"@) + first + ("\n"@ + second));
    assert(r =~= (decimal(n) + ".\n"@ + first + "\n"@) + second);
    lemma_stands_in_sum(decimal(n) + ".\n"@, first, "\n"@ + second);
    lemma_stands_in_sum(decimal(n) + ".\n"@ + first + "\n"@, second, Seq::empty());
    let front = decimal(n) + "."@;
    assert(front =~= r.subrange(0, front.len() as int));
}

/// An item of the answer decides on the couple that it gives the place of, counted from
/// zero, by the word `merge` or `replace`; any other word, or a place that there is not,
/// decides nothing.
pub proof fn law_decision(item: JsonView, n: int, i: int)
    ensures
        decision(item, n) == Some((i, Action::Merge)) <==> {
            &&& 0 <= i < n
            &&& item.integer_at("index"@) == Some(i as i64) && i as i64 == i
            &&& item.text_at("action"@) == Some("merge"@)
        },
        decision(item, n) == Some((i, Action::Replace)) <==> {
            &&& 0 <= i < n
            &&& item.integer_at("index"@) == Some(i as i64) && i as i64 == i
            &&& item.text_at("action"@) == Some("replace"@)
        },
{
    reveal_strlit("");
    reveal_strlit("merge");
    reveal_strlit("replace");
    assert(""@.len() == 0 && "merge"@.len() == 5 && "replace"@.len() == 7);
}

/// Every item of an answer that decides something is among the decisions, and nothing else.
pub proof fn law_decisions(items: Seq<JsonView>, n: int, d: (int, Action))
    ensures
        decisions_in(items, n).contains(d) <==> exists|k: int|
            0 <= k < items.len() && decision(#[trigger] items[k], n) == Some(d),
        decisions_in(items, n).len() <= items.len(),
    decreases items.len(),
{
    if items.len() > 0 {
        let rest = items.drop_last();
        let v = items.last();
        law_decisions(rest, n, d);
        if decision(v, n) is Some {
            crate::order::lemma_push_contains(decisions_in(rest, n), decision(v, n)->0, d);
        }
        if decisions_in(items, n).contains(d) {
            if decisions_in(rest, n).contains(d) {
                let k = choose|k: int|
                    0 <= k < rest.len() && decision(#[trigger] rest[k], n) == Some(d);
                assert(decision(items[k], n) == Some(d));
            } else {
                assert(decision(items[items.len() - 1], n) == Some(d));
            }
        }
        if exists|k: int| 0 <= k < items.len() && decision(#[trigger] items[k], n) == Some(d) {
            let k = choose|k: int|
                0 <= k < items.len() && decision(#[trigger] items[k], n) == Some(d);
            if k < rest.len() {
                assert(decision(rest[k], n) == Some(d));
            }
        }
    }
}

/// A decision leaves every document alone that is none of the two facts.
pub proof fn law_decision_leaves_others(
    items: Seq<JsonView>,
    c: (FactView, FactView),
    action: Action,
    v: JsonView,
)
    requires
        v.text_at("id"@) != Some(c.0.id),
        v.text_at("id"@) != Some(c.1.id),
    ensures
        decided(items, c, action).contains(v) <==> items.contains(v),
{
    let up = with_raised(items, c.0.id, c.1.importance);
    lemma_with_raised(items, c.0.id, c.1.importance);
    lemma_without(up, c.1.id, v);
    lemma_without(items, c.0.id, v);
    lemma_raised_others(items, c.0.id, c.1.importance, v);
}

proof fn lemma_raised_others(items: Seq<JsonView>, id: Seq<char>, importance: i32, v: JsonView)
    requires
        v.text_at("id"@) != Some(id),
    ensures
        with_raised(items, id, importance).contains(v) <==> items.contains(v),
    decreases items.len(),
{
    if items.len() > 0 {
        let rest = items.drop_first();
        let up = with_raised(items, id, importance);
        lemma_with_raised(items, id, importance);
        if is_fact(items[0], id) {
            lemma_with_raised(items, id, importance);
            assert(is_fact(up[0], id));
            if items.contains(v) {
                let k = choose|k: int| 0 <= k < items.len() && items[k] == v;
                assert(rest[k - 1] == v);
                assert(up[k] == v);
            }
            if up.contains(v) {
                let k = choose|k: int| 0 <= k < up.len() && up[k] == v;
                assert(items[k] == v);
            }
        } else {
            lemma_raised_others(rest, id, importance, v);
            let front = seq![items[0]];
            let tail = with_raised(rest, id, importance);
            if items.contains(v) {
                let k = choose|k: int| 0 <= k < items.len() && items[k] == v;
                if k > 0 {
                    assert(rest[k - 1] == v);
                    let m = choose|m: int| 0 <= m < tail.len() && tail[m] == v;
                    assert(up[m + 1] == v);
                } else {
                    assert(up[0] == v);
                }
            }
            if up.contains(v) {
                let k = choose|k: int| 0 <= k < up.len() && up[k] == v;
                if k > 0 {
                    assert(tail[k - 1] == v);
                    let m = choose|m: int| 0 <= m < rest.len() && rest[m] == v;
                    assert(items[m + 1] == v);
                } else {
                    assert(items[0] == v);
                }
            }
        }
    }
}

/// After a merge the older fact is still there, as it was but for its importance, which is
/// the greater of the two.
pub proof fn law_merge_raises_the_older(
    items: Seq<JsonView>,
    c: (FactView, FactView),
    k: int,
    own: i64,
)
    requires
        c.0.id != c.1.id,
        0 <= k < items.len(),
        items[k].text_at("id"@) == Some(c.0.id),
        forall|i: int| 0 <= i < k ==> (#[trigger] items[i]).text_at("id"@) != Some(c.0.id),
        items[k].integer_at("importance"@) == Some(own),
    ensures
        exists|v: JsonView| #[trigger]
            decided(items, c, Action::Merge).contains(v) && v.text_at("id"@) == Some(c.0.id)
                && v.text_at("text"@) == items[k].text_at("text"@) && v.text_at("entity"@)
                == items[k].text_at("entity"@) && v.integer_at("importance"@) == Some(
                if own >= c.1.importance {
                    own
                } else {
                    c.1.importance as i64
                },
            ),
{
    let v = raised(items[k], c.1.importance);
    let up = with_raised(items, c.0.id, c.1.importance);
    lemma_raised_at(items, c.0.id, c.1.importance, k);
    crate::dedup::law_merge_keeps_greater_importance(items[k], c.1.importance, own);
    reveal_strlit("importance");
    reveal_strlit("text");
    reveal_strlit("entity");
    reveal_strlit("id");
    assert("importance"@.len() == 10 && "text"@.len() == 4 && "entity"@.len() == 6 && "id"@.len()
        == 2);
    let new = crate::chat::whole_number(
        if own >= c.1.importance {
            own as int
        } else {
            c.1.importance as int
        },
    );
    let fields = items[k]->Record_0;
    crate::json::lemma_put_field(fields, "importance"@, new, "text"@);
    crate::json::lemma_put_field(fields, "importance"@, new, "entity"@);
    crate::json::lemma_put_field(fields, "importance"@, new, "id"@);
    assert(up[k] == v);
    lemma_without(up, c.1.id, v);
    assert(up.contains(v));
    assert(decided(items, c, Action::Merge).contains(v));
}

proof fn lemma_raised_at(items: Seq<JsonView>, id: Seq<char>, importance: i32, k: int)
    requires
        0 <= k < items.len(),
        items[k].text_at("id"@) == Some(id),
        forall|i: int| 0 <= i < k ==> (#[trigger] items[i]).text_at("id"@) != Some(id),
    ensures
        k < with_raised(items, id, importance).len(),
        with_raised(items, id, importance)[k] == raised(items[k], importance),
    decreases items.len(),
{
    if k > 0 {
        let rest = items.drop_first();
        assert(items[0].text_at("id"@) != Some(id));
        assert forall|i: int| 0 <= i < k - 1 implies (#[trigger] rest[i]).text_at("id"@) != Some(
            id,
        ) by {
            assert(items[i + 1].text_at("id"@) != Some(id));
        }
        lemma_raised_at(rest, id, importance, k - 1);
    }
}

/// The decisions of an answer are carried out one after the other, each on its own couple.
pub proof fn law_decisions_carried_out(
    items: Seq<JsonView>,
    cs: Seq<(FactView, FactView)>,
    ds: Seq<(int, Action)>,
    d: (int, Action),
)
    ensures
        crate::dedup::decided_all(items, cs, Seq::empty()) == items,
        crate::dedup::decided_all(items, cs, ds.push(d)) == decided(
            crate::dedup::decided_all(items, cs, ds),
            cs[d.0],
            d.1,
        ),
        crate::dedup::count_of(Seq::empty(), d.1) == 0,
        crate::dedup::count_of(ds.push(d), d.1) == crate::dedup::count_of(ds, d.1) + 1,
        d.1 == Action::Merge ==> crate::dedup::count_of(ds.push(d), Action::Replace)
            == crate::dedup::count_of(ds, Action::Replace),
        d.1 == Action::Replace ==> crate::dedup::count_of(ds.push(d), Action::Merge)
            == crate::dedup::count_of(ds, Action::Merge),
{
    assert(ds.push(d).drop_last() =~= ds);
}

/// An answer may stand in a fence for documents.
pub proof fn law_answer_in_fence(body: Seq<char>)
    requires
        body.len() > 0,
        forall|i: int| 0 <= i < body.len() ==> #[trigger] body[i] != '`',
    ensures
        crate::dedup::bare_answer("```json"@ + body + "```"@) == crate::text::trimmed(body),
{
    let open = "```json"@;
    let f = "```"@;
    reveal_strlit("```json");
    reveal_strlit("```");
    let s = open + body + f;
    assert(s[0] == '`' && s.last() == '`');
    crate::text_laws::law_trimmed(Seq::empty(), s, Seq::empty());
    assert(Seq::<char>::empty() + s + Seq::<char>::empty() =~= s);
    let rest = body + f;
    assert(s =~= open + rest);
    assert(rest[0] == body[0]);
    assert(body[0] != '`');
    crate::text_laws::law_cut(rest, open);
    assert(!open.is_prefix_of(rest)) by {
        if open.is_prefix_of(rest) {
            assert(open[0] == rest[0]);
        }
    }
    crate::text_laws::law_cut(rest, f);
    assert(!f.is_prefix_of(rest)) by {
        if f.is_prefix_of(rest) {
            assert(f[0] == rest[0]);
        }
    }
    crate::text_laws::law_cut(body, f);
    assert(!f.is_suffix_of(body)) by {
        if f.is_suffix_of(body) {
            assert(body[body.len() - 1] == f[2]);
        }
    }
}

/// The decisions of an answer are the items of the list that it is, or of the one under
/// `results`; an answer that is neither decides nothing.
pub proof fn law_answer_items(v: JsonView, items: Seq<JsonView>)
    ensures
        v == JsonView::List(items) ==> crate::dedup::answer_items(v) == items,
        !(v is List) && v.items_at("results"@) == Some(items) ==> crate::dedup::answer_items(v)
            == items,
        !(v is List) && v.items_at("results"@) is None ==> crate::dedup::answer_items(v).len() == 0,
{
}

/// An answer that is a document is carried out, and counted: what was merged, what was
/// replaced, and the couples that are left. One that is none changes nothing, and it is said
/// what was wrong with it.
pub proof fn law_answer_carried_out(
    s: StoreView,
    cs: Seq<(FactView, FactView)>,
    content: Seq<char>,
    items: Seq<JsonView>,
)
    requires
        s.facts.items() == Some(items),
    ensures
        crate::json::json_read(crate::dedup::bare_answer(content)) matches Err(e) ==> s.with_answer(
            cs,
            content,
        ) == s && s.answer_counted(cs, content) is Err,
        crate::json::json_read(crate::dedup::bare_answer(content)) matches Ok(v) ==> ({
            let ds = decisions_in(crate::dedup::answer_items(v), cs.len() as int);
            &&& s.with_answer(cs, content).facts == JsonView::List(
                crate::dedup::decided_all(items, cs, ds),
            )
            &&& s.with_answer(cs, content).reflections == s.reflections
            &&& s.with_answer(cs, content).persona == s.persona
            &&& s.with_answer(cs, content).recent == s.recent
            &&& ds.len() <= cs.len() && cs.len() <= usize::MAX ==> s.answer_counted(cs, content)
                == Ok::<(usize, usize, usize), Seq<char>>(
                (
                    crate::dedup::count_of(ds, Action::Merge) as usize,
                    crate::dedup::count_of(ds, Action::Replace) as usize,
                    (cs.len() - ds.len()) as usize,
                ),
            )
        }),
{
}

/// A fact is asked about in one couple at most.
pub proof fn law_fact_in_one_couple(facts: Seq<FactView>, max_pairs: int, a: int, b: int)
    requires
        0 <= a < b < chosen_pairs(facts, max_pairs).len(),
    ensures
        ({
            let p = chosen_pairs(facts, max_pairs)[a];
            let q = chosen_pairs(facts, max_pairs)[b];
            p.i != q.i && p.i != q.j && p.j != q.i && p.j != q.j
        }),
{
    crate::dedup::law_candidates(facts, max_pairs);
    assert(!overlap(chosen_pairs(facts, max_pairs)[a], chosen_pairs(facts, max_pairs)[b]));
}

/// The couples are asked about by their number from one, in the place of the mark for them,
/// and their count in the place of the mark for it.
pub proof fn law_question(cs: Seq<(FactView, FactView)>, i: int)
    ensures
        crate::dedup::couple_texts(cs).len() == cs.len(),
        0 <= i < cs.len() ==> crate::dedup::couple_texts(cs)[i] == couple_text(i + 1, cs[i]),
        stands_in(
            crate::text::replaced(
                crate::memory_prompts::FACT_DEDUP_PROMPT@,
                "{COUNT}"@,
                decimal(cs.len() as int),
            ),
            "{PAIRS}"@,
        ) && 0 <= i < cs.len() ==> stands_in(
            crate::dedup::dedup_prompt(cs),
            couple_text(i + 1, cs[i]),
        ),
{
    let texts = crate::dedup::couple_texts(cs);
    let s = crate::text::replaced(
        crate::memory_prompts::FACT_DEDUP_PROMPT@,
        "{COUNT}"@,
        decimal(cs.len() as int),
    );
    reveal_strlit("{PAIRS}");
    if stands_in(s, "{PAIRS}"@) && 0 <= i < cs.len() {
        let by = crate::text::joined(texts, "\n"@);
        crate::text_laws::law_replaced_stands(s, "{PAIRS}"@, by);
        crate::text_laws::law_joined_holds_parts(texts, "\n"@, i);
        let r = crate::dedup::dedup_prompt(cs);
        let k = choose|k: int| crate::text_laws::stands_at_place(r, by, k);
        let front = r.take(k);
        let back = r.skip(k + by.len());
        assert(r =~= front + by + back) by {
            assert(r.subrange(k, k + by.len()) == by);
        }
        crate::text_laws::lemma_stands_in_part(front, by, back, texts[i]);
    }
}

/// A fact without an importance of its own gets that of the other, if it is above zero. What
/// is said of an answer that is no document names the error and the first two hundred
/// characters. Where more was decided than there are couples, none is left.
pub proof fn law_odd_answers(
    v: JsonView,
    importance: i32,
    content: Seq<char>,
    e: Seq<char>,
    s: StoreView,
    cs: Seq<(FactView, FactView)>,
    ds: Seq<(int, Action)>,
)
    ensures
        v is Record && v.integer_at("importance"@) is None ==> raised(v, importance).integer_at(
            "importance"@,
        ) == Some(
            if importance >= 0 {
                importance as i64
            } else {
                0i64
            },
        ),
        crate::dedup::answer_broken(content, e) == "仲裁结果解析失败: "@ + e + "（原始: "@
            + crate::text::head(content, 200) + "）"@,
        s.facts.items() is Some && ds.len() > cs.len() ==> (s.decisions_counted(cs, ds) matches Ok(n)
            && n.2 == 0),
        s.facts.items() is None ==> s.decisions_counted(cs, ds) == Err::<
            (usize, usize, usize),
            Seq<char>,
        >("facts.json 不是数组"@),
{
    if v is Record {
        let m = if importance <= 0 {
            0int
        } else {
            importance as int
        };
        crate::json::lemma_put_field(
            v->Record_0,
            "importance"@,
            crate::chat::whole_number(m),
            "importance"@,
        );
    }
}

} // verus!
