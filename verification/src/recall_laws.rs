//! What recall and the context for a prompt promise: which memories come up, in which
//! order, and how they are shown.

use crate::clock::Wall;
use crate::json::JsonView;
use crate::memory::{facts_by_weight, FactView, ReflectionView, StoreView};
use crate::order::sorted_by;
use crate::proactive::bigrams;
use crate::recall::{
    context_facts, context_impressions, core_of, distinct_facts, distinct_hits, entry_hits,
    entry_texts, fact_hits, hit_lines, hits_in, impressions_upto, pair_words, run_len, says_same,
    shown_hits, words_of, HitView, ImpressionView,
};
use crate::text::{ascii_alphanumeric, byte_size, decimal, has_text, joined, lowercase_of};
use crate::text_laws::{
    law_joined_holds_parts, law_replaced_first, law_replaced_nothing, law_text_stands_in,
    lemma_stands_in_part, lemma_stands_in_parts, lemma_stands_in_sum, stands_at_place, stands_in,
};
use vstd::prelude::*;

verus! {

// ---------------------------------------------------------------------------
// Words
// ---------------------------------------------------------------------------

/// An ASCII letter or digit.
pub open spec fn is_letter(c: char) -> bool {
    ||| '0' <= c && c <= '9'
    ||| 'A' <= c && c <= 'Z'
    ||| 'a' <= c && c <= 'z'
}

/// A character beyond ASCII.
pub open spec fn is_wide(c: char) -> bool {
    c as u32 >= 128
}

/// Whether a word of a text stands between two places of it: a run of letters and digits
/// that nothing continues, two wide characters side by side, or a wide one alone.
pub open spec fn word_between(s: Seq<char>, i: int, j: int) -> bool {
    &&& 0 <= i < j <= s.len()
    &&& {
        ||| (forall|k: int| i <= k < j ==> is_letter(#[trigger] s[k])) && (i == 0 || !is_letter(
            s[i - 1],
        )) && (j == s.len() || !is_letter(s[j]))
        ||| j == i + 2 && is_wide(s[i]) && is_wide(s[i + 1])
        ||| j == i + 1 && is_wide(s[i]) && (i == 0 || !is_wide(s[i - 1])) && (j == s.len()
            || !is_wide(s[j]))
    }
}

/// Whether a word of `q` stands in `t`.
pub open spec fn shares_word(q: Seq<char>, t: Seq<char>) -> bool {
    exists|i: int, j: int| #[trigger] word_between(q, i, j) && stands_in(t, q.subrange(i, j))
}

proof fn lemma_run(s: Seq<char>, p: spec_fn(char) -> bool)
    ensures
        run_len(s, p) <= s.len(),
        s.len() > 0 && p(s[0]) ==> run_len(s, p) > 0,
        forall|k: int| 0 <= k < run_len(s, p) ==> p(#[trigger] s[k]),
        run_len(s, p) < s.len() ==> !p(s[run_len(s, p) as int]),
    decreases s.len(),
{
    if s.len() > 0 && p(s[0]) {
        let rest = s.drop_first();
        lemma_run(rest, p);
        assert forall|k: int| 0 <= k < run_len(s, p) implies p(#[trigger] s[k]) by {
            if k > 0 {
                assert(rest[k - 1] == s[k]);
            }
        }
    }
}

/// Where the kind of character changes at `n`, the words behind it are those of the rest.
proof fn lemma_word_shift(s: Seq<char>, n: int, i: int, j: int)
    requires
        0 < n <= s.len(),
        n <= i < j,
        n < s.len() ==> !(is_letter(s[n - 1]) && is_letter(s[n])) && !(is_wide(s[n - 1]) && is_wide(
            s[n],
        )),
    ensures
        word_between(s.skip(n), i - n, j - n) <==> word_between(s, i, j),
        j <= s.len() ==> s.skip(n).subrange(i - n, j - n) == s.subrange(i, j),
{
    let r = s.skip(n);
    if j <= s.len() {
        assert(r.subrange(i - n, j - n) =~= s.subrange(i, j));
        assert(forall|k: int| n <= k < s.len() ==> #[trigger] s[k] == r[k - n]);
        assert(forall|k: int| 0 <= k < r.len() ==> #[trigger] r[k] == s[k + n]);
        if word_between(r, i - n, j - n) {
            if forall|k: int| i - n <= k < j - n ==> is_letter(#[trigger] r[k]) {
                assert(is_letter(r[i - n]));
                assert forall|k: int| i <= k < j implies is_letter(#[trigger] s[k]) by {
                    assert(is_letter(r[k - n]));
                }
            }
        }
        if word_between(s, i, j) {
            if forall|k: int| i <= k < j ==> is_letter(#[trigger] s[k]) {
                assert(is_letter(s[i]));
                assert forall|k: int| i - n <= k < j - n implies is_letter(#[trigger] r[k]) by {
                    assert(is_letter(s[k + n]));
                }
            }
        }
    }
}

proof fn lemma_add_contains<T>(a: Seq<T>, b: Seq<T>, x: T)
    ensures
        (a + b).contains(x) <==> a.contains(x) || b.contains(x),
{
    if a.contains(x) {
        let k = choose|k: int| 0 <= k < a.len() && a[k] == x;
        assert((a + b)[k] == x);
    }
    if b.contains(x) {
        let k = choose|k: int| 0 <= k < b.len() && b[k] == x;
        assert((a + b)[a.len() + k] == x);
    }
    if (a + b).contains(x) {
        let k = choose|k: int| 0 <= k < (a + b).len() && (a + b)[k] == x;
        if k < a.len() {
            assert(a[k] == x);
        } else {
            assert(b[k - a.len()] == x);
        }
    }
}

/// Every word that stands in a text is among its words.
pub proof fn law_words_are_found(s: Seq<char>, i: int, j: int)
    requires
        word_between(s, i, j),
    ensures
        words_of(s).contains(s.subrange(i, j)),
    decreases s.len(),
{
    let w = s.subrange(i, j);
    if ascii_alphanumeric(s[0]) {
        let p = |c: char| ascii_alphanumeric(c);
        let n = run_len(s, p) as int;
        lemma_run(s, p);
        assert(forall|k: int| 0 <= k < n ==> p(#[trigger] s[k]));
        lemma_add_contains(seq![s.take(n)], words_of(s.skip(n)), w);
        if i >= n {
            lemma_word_shift(s, n, i, j);
            law_words_are_found(s.skip(n), i - n, j - n);
        } else {
            assert(p(s[i]));
            if i > 0 {
                assert(p(s[i - 1]));
            }
            if j < n {
                assert(p(s[j]));
            }
            if j > n {
                assert(is_letter(s[n]));
            }
            assert(i == 0 && j == n);
            assert(w =~= s.take(n));
            assert(seq![s.take(n)][0] == w);
        }
    } else if is_wide(s[0]) {
        let p = |c: char| crate::recall::beyond_ascii(c);
        let n = run_len(s, p) as int;
        lemma_run(s, p);
        let run = s.take(n);
        assert(forall|k: int| 0 <= k < n ==> p(#[trigger] s[k]));
        lemma_add_contains(pair_words(run), words_of(s.skip(n)), w);
        if i >= n {
            lemma_word_shift(s, n, i, j);
            law_words_are_found(s.skip(n), i - n, j - n);
        } else {
            assert(p(s[i]));
            assert(!is_letter(s[i]));
            if j == i + 2 {
                assert(j <= n);
                assert(w =~= seq![run[i], run[i + 1]]);
                assert(pair_words(run)[i] == w);
            } else {
                assert(j == i + 1);
                if i > 0 {
                    assert(p(s[i - 1]));
                }
                if j < n {
                    assert(p(s[j]));
                }
                assert(n == 1);
                assert(w =~= run);
                assert(pair_words(run)[0] == w);
            }
        }
    } else {
        assert(i > 0) by {
            if i == 0 {
                assert(is_letter(s[0]) || is_wide(s[0]));
            }
        }
        lemma_word_shift(s, 1, i, j);
        law_words_are_found(s.skip(1), i - 1, j - 1);
    }
}

/// Every word of a text stands in it as a word.
pub proof fn law_words_stand_in_text(s: Seq<char>, w: Seq<char>)
    requires
        words_of(s).contains(w),
    ensures
        exists|i: int, j: int| #[trigger] word_between(s, i, j) && w == s.subrange(i, j),
    decreases s.len(),
{
    if s.len() > 0 {
        if ascii_alphanumeric(s[0]) {
            let p = |c: char| ascii_alphanumeric(c);
            let n = run_len(s, p) as int;
            lemma_run(s, p);
            lemma_add_contains(seq![s.take(n)], words_of(s.skip(n)), w);
            if words_of(s.skip(n)).contains(w) {
                lemma_words_of_rest(s, n, w);
            } else {
                assert(w == s.take(n));
                assert(s.subrange(0, n) =~= s.take(n));
                assert forall|k: int| 0 <= k < n implies is_letter(#[trigger] s[k]) by {
                    assert(p(s[k]));
                }
                assert(word_between(s, 0, n));
            }
        } else if is_wide(s[0]) {
            let p = |c: char| crate::recall::beyond_ascii(c);
            let n = run_len(s, p) as int;
            let run = s.take(n);
            lemma_run(s, p);
            lemma_add_contains(pair_words(run), words_of(s.skip(n)), w);
            if words_of(s.skip(n)).contains(w) {
                lemma_words_of_rest(s, n, w);
            } else {
                let k = choose|k: int| 0 <= k < pair_words(run).len() && pair_words(run)[k] == w;
                if n == 1 {
                    assert(s.subrange(0, 1) =~= run);
                    assert(word_between(s, 0, 1));
                } else {
                    assert(p(s[k]) && p(s[k + 1]));
                    assert(s.subrange(k, k + 2) =~= seq![run[k], run[k + 1]]);
                    assert(word_between(s, k, k + 2));
                }
            }
        } else {
            lemma_words_of_rest(s, 1, w);
        }
    }
}

proof fn lemma_words_of_rest(s: Seq<char>, n: int, w: Seq<char>)
    requires
        0 < n <= s.len(),
        n < s.len() ==> !(is_letter(s[n - 1]) && is_letter(s[n])) && !(is_wide(s[n - 1]) && is_wide(
            s[n],
        )),
        words_of(s.skip(n)).contains(w),
    ensures
        exists|i: int, j: int| #[trigger] word_between(s, i, j) && w == s.subrange(i, j),
    decreases s.len(), 0int,
{
    law_words_stand_in_text(s.skip(n), w);
    let (i, j) = choose|i: int, j: int| #[trigger]
        word_between(s.skip(n), i, j) && w == s.skip(n).subrange(i, j);
    lemma_word_shift(s, n, i + n, j + n);
    assert(word_between(s, i + n, j + n));
}

proof fn lemma_hits_in(words: Seq<Seq<char>>, t: Seq<char>)
    ensures
        hits_in(words, t) > 0 <==> exists|i: int|
            0 <= i < words.len() && has_text(t, #[trigger] words[i]),
    decreases words.len(),
{
    if words.len() > 0 {
        let rest = words.drop_last();
        lemma_hits_in(rest, t);
        if hits_in(words, t) > 0 {
            if has_text(t, words.last()) {
                assert(has_text(t, words[words.len() - 1]));
            } else {
                let i = choose|i: int| 0 <= i < rest.len() && has_text(t, #[trigger] rest[i]);
                assert(has_text(t, words[i]));
            }
        }
        if exists|i: int| 0 <= i < words.len() && has_text(t, #[trigger] words[i]) {
            let i = choose|i: int| 0 <= i < words.len() && has_text(t, #[trigger] words[i]);
            if i < rest.len() {
                assert(has_text(t, rest[i]));
            }
        }
    }
}

/// The score of a text for a query counts the words of the query that stand in the text.
pub proof fn law_score_counts_words(words: Seq<Seq<char>>, t: Seq<char>)
    ensures
        hits_in(words, t) == words.filter(|w: Seq<char>| stands_in(t, w)).len(),
    decreases words.len(),
{
    reveal(Seq::filter);
    if words.len() > 0 {
        law_score_counts_words(words.drop_last(), t);
        law_text_stands_in(t, words.last(), Seq::empty(), Seq::empty());
    }
}

proof fn lemma_fits(q: Seq<char>, t: Seq<char>)
    ensures
        hits_in(words_of(q), t) > 0 <==> shares_word(q, t),
{
    lemma_hits_in(words_of(q), t);
    if hits_in(words_of(q), t) > 0 {
        let k = choose|k: int|
            0 <= k < words_of(q).len() && has_text(t, #[trigger] words_of(q)[k]);
        let w = words_of(q)[k];
        law_words_stand_in_text(q, w);
        let (i, j) = choose|i: int, j: int| #[trigger]
            word_between(q, i, j) && w == q.subrange(i, j);
        law_text_stands_in(t, w, Seq::empty(), Seq::empty());
        assert(word_between(q, i, j) && stands_in(t, q.subrange(i, j)));
    }
    if shares_word(q, t) {
        let (i, j) = choose|i: int, j: int| #[trigger]
            word_between(q, i, j) && stands_in(t, q.subrange(i, j));
        let w = q.subrange(i, j);
        law_words_are_found(q, i, j);
        law_text_stands_in(t, w, Seq::empty(), Seq::empty());
        let k = choose|k: int| 0 <= k < words_of(q).len() && words_of(q)[k] == w;
        assert(has_text(t, words_of(q)[k]));
    }
}

// ---------------------------------------------------------------------------
// Which memories come up
// ---------------------------------------------------------------------------

/// The hit that a fact is.
pub open spec fn hit_of_fact(f: FactView) -> HitView {
    HitView {
        importance: f.importance,
        text: f.text,
        entity: f.entity,
        created_at: f.created_at,
    }
}

/// The hit that an entry on the user is.
pub open spec fn hit_of_entry(t: Seq<char>) -> HitView {
    HitView { importance: 10, text: t, entity: "master"@, created_at: Seq::empty() }
}

/// Whether an entry on the user with this text is stored.
pub open spec fn has_entry(s: StoreView, t: Seq<char>) -> bool {
    s.persona.items_at("master"@) is Some && exists|i: int|
        0 <= i < s.persona.items_at("master"@)->0.len() && (#[trigger] s.persona.items_at(
            "master"@,
        )->0[i]).text_at("text"@) == Some(t)
}

proof fn lemma_fact_hits(facts: Seq<FactView>, q: Seq<char>)
    ensures
        forall|f: FactView| #[trigger]
            facts.contains(f) && shares_word(q, lowercase_of(f.text)) ==> fact_hits(
                facts,
                q,
            ).contains(hit_of_fact(f)),
        forall|h: HitView| #[trigger]
            fact_hits(facts, q).contains(h) ==> exists|f: FactView| #[trigger]
                facts.contains(f) && h == hit_of_fact(f) && shares_word(q, lowercase_of(f.text)),
    decreases facts.len(),
{
    if facts.len() > 0 {
        let rest = facts.drop_last();
        let x = facts.last();
        let before = fact_hits(rest, q);
        lemma_fact_hits(rest, q);
        lemma_fits(q, lowercase_of(x.text));
        assert(facts =~= rest.push(x));
        assert forall|f: FactView| #[trigger]
            facts.contains(f) && shares_word(q, lowercase_of(f.text)) implies fact_hits(
            facts,
            q,
        ).contains(hit_of_fact(f)) by {
            crate::order::lemma_push_contains(rest, x, f);
            crate::order::lemma_push_contains(before, hit_of_fact(x), hit_of_fact(f));
        }
        assert forall|h: HitView| #[trigger] fact_hits(facts, q).contains(h) implies exists|
            f: FactView,
        | #[trigger]
            facts.contains(f) && h == hit_of_fact(f) && shares_word(q, lowercase_of(f.text)) by {
            crate::order::lemma_push_contains(before, hit_of_fact(x), h);
            if before.contains(h) {
                let f = choose|f: FactView| #[trigger]
                    rest.contains(f) && h == hit_of_fact(f) && shares_word(q, lowercase_of(f.text));
                crate::order::lemma_push_contains(rest, x, f);
                assert(facts.contains(f));
            } else {
                crate::order::lemma_push_contains(rest, x, x);
                assert(facts.contains(x));
            }
        }
    }
}

proof fn lemma_entry_hits(texts: Seq<Seq<char>>, q: Seq<char>)
    ensures
        forall|t: Seq<char>| #[trigger]
            texts.contains(t) && (stands_in(lowercase_of(t), q) || stands_in(q, lowercase_of(t))
                || shares_word(q, lowercase_of(t))) ==> entry_hits(texts, q).contains(
                hit_of_entry(t),
            ),
        forall|h: HitView| #[trigger]
            entry_hits(texts, q).contains(h) ==> exists|t: Seq<char>| #[trigger]
                texts.contains(t) && h == hit_of_entry(t) && (stands_in(lowercase_of(t), q)
                    || stands_in(q, lowercase_of(t)) || shares_word(q, lowercase_of(t))),
    decreases texts.len(),
{
    if texts.len() > 0 {
        let rest = texts.drop_last();
        let x = texts.last();
        let before = entry_hits(rest, q);
        let low = lowercase_of(x);
        lemma_entry_hits(rest, q);
        lemma_fits(q, low);
        law_text_stands_in(low, q, Seq::empty(), Seq::empty());
        law_text_stands_in(q, low, Seq::empty(), Seq::empty());
        assert(texts =~= rest.push(x));
        assert forall|t: Seq<char>| #[trigger]
            texts.contains(t) && (stands_in(lowercase_of(t), q) || stands_in(q, lowercase_of(t))
                || shares_word(q, lowercase_of(t))) implies entry_hits(texts, q).contains(
            hit_of_entry(t),
        ) by {
            crate::order::lemma_push_contains(rest, x, t);
            crate::order::lemma_push_contains(before, hit_of_entry(x), hit_of_entry(t));
        }
        assert forall|h: HitView| #[trigger] entry_hits(texts, q).contains(h) implies exists|
            t: Seq<char>,
        | #[trigger]
            texts.contains(t) && h == hit_of_entry(t) && (stands_in(lowercase_of(t), q)
                || stands_in(q, lowercase_of(t)) || shares_word(q, lowercase_of(t))) by {
            crate::order::lemma_push_contains(before, hit_of_entry(x), h);
            if before.contains(h) {
                let t = choose|t: Seq<char>| #[trigger]
                    rest.contains(t) && h == hit_of_entry(t) && (stands_in(lowercase_of(t), q)
                        || stands_in(q, lowercase_of(t)) || shares_word(q, lowercase_of(t)));
                crate::order::lemma_push_contains(rest, x, t);
                assert(texts.contains(t));
            } else {
                crate::order::lemma_push_contains(rest, x, x);
                assert(texts.contains(x));
            }
        }
    }
}

proof fn lemma_entry_texts(items: Seq<JsonView>, t: Seq<char>)
    ensures
        entry_texts(items).contains(t) <==> exists|i: int|
            0 <= i < items.len() && (#[trigger] items[i]).text_at("text"@) == Some(t),
    decreases items.len(),
{
    if items.len() > 0 {
        let rest = items.drop_last();
        let v = items.last();
        lemma_entry_texts(rest, t);
        if v.text_at("text"@) is Some {
            crate::order::lemma_push_contains(entry_texts(rest), v.text_at("text"@)->0, t);
        }
        if entry_texts(items).contains(t) {
            if entry_texts(rest).contains(t) {
                let i = choose|i: int|
                    0 <= i < rest.len() && (#[trigger] rest[i]).text_at("text"@) == Some(t);
                assert(items[i].text_at("text"@) == Some(t));
            } else {
                assert(items[items.len() - 1].text_at("text"@) == Some(t));
            }
        }
        if exists|i: int|
            0 <= i < items.len() && (#[trigger] items[i]).text_at("text"@) == Some(t) {
            let i = choose|i: int|
                0 <= i < items.len() && (#[trigger] items[i]).text_at("text"@) == Some(t);
            if i < rest.len() {
                assert(rest[i].text_at("text"@) == Some(t));
            }
        }
    }
}

/// A stored fact comes up for a query if one word of the query stands in it, letter case
/// aside: one word is enough, whatever the others are.
pub proof fn law_recall_finds_facts(s: StoreView, query: Seq<char>, f: FactView, i: int, j: int)
    requires
        s.all_facts().contains(f),
        word_between(lowercase_of(query), i, j),
        stands_in(lowercase_of(f.text), lowercase_of(query).subrange(i, j)),
    ensures
        s.hits(query).contains(hit_of_fact(f)),
        exists|k: int|
            0 <= k < s.hits(query).len() && (#[trigger] s.hits(query)[k]).text == f.text,
{
    let q = lowercase_of(query);
    let first = fact_hits(s.all_facts(), q);
    lemma_fact_hits(s.all_facts(), q);
    assert(shares_word(q, lowercase_of(f.text)));
    let h = hit_of_fact(f);
    let k = choose|k: int| 0 <= k < first.len() && first[k] == h;
    assert(s.hits(query)[k] == h);
}

/// A stored fact comes up for a query if two wide characters that stand side by side in
/// the query stand side by side in the fact.
pub proof fn law_recall_by_two_characters(
    s: StoreView,
    query: Seq<char>,
    f: FactView,
    i: int,
    k: int,
)
    requires
        s.all_facts().contains(f),
        0 <= i < lowercase_of(query).len() - 1,
        lowercase_of(query)[i] as u32 >= 128,
        lowercase_of(query)[i + 1] as u32 >= 128,
        0 <= k < lowercase_of(f.text).len() - 1,
        lowercase_of(f.text)[k] == lowercase_of(query)[i],
        lowercase_of(f.text)[k + 1] == lowercase_of(query)[i + 1],
    ensures
        s.hits(query).contains(hit_of_fact(f)),
{
    let q = lowercase_of(query);
    let t = lowercase_of(f.text);
    let w = q.subrange(i, i + 2);
    assert(t.subrange(k, k + 2) =~= w);
    assert(stands_at_place(t, w, k));
    assert(word_between(q, i, i + 2));
    law_recall_finds_facts(s, query, f, i, i + 2);
}

/// An entry on the user comes up for a query if one stands in the other, or a word of the
/// query stands in the entry, letter case aside.
pub proof fn law_recall_finds_entries(s: StoreView, query: Seq<char>, t: Seq<char>)
    requires
        has_entry(s, t),
        stands_in(lowercase_of(t), lowercase_of(query)) || stands_in(
            lowercase_of(query),
            lowercase_of(t),
        ) || shares_word(lowercase_of(query), lowercase_of(t)),
    ensures
        s.hits(query).contains(hit_of_entry(t)),
{
    let q = lowercase_of(query);
    let texts = entry_texts(s.persona.items_at("master"@)->0);
    lemma_entry_texts(s.persona.items_at("master"@)->0, t);
    lemma_entry_hits(texts, q);
    lemma_add_contains(fact_hits(s.all_facts(), q), entry_hits(texts, q), hit_of_entry(t));
}

/// Nothing comes up for a query but stored facts that a word of the query stands in, and
/// stored entries on the user that fit it, letter case aside.
pub proof fn law_recall_is_sound(s: StoreView, query: Seq<char>, h: HitView)
    requires
        s.hits(query).contains(h),
    ensures
        ({
            let q = lowercase_of(query);
            ||| exists|f: FactView| #[trigger]
                s.all_facts().contains(f) && h == hit_of_fact(f) && shares_word(
                    q,
                    lowercase_of(f.text),
                )
            ||| has_entry(s, h.text) && h == hit_of_entry(h.text) && (stands_in(
                lowercase_of(h.text),
                q,
            ) || stands_in(q, lowercase_of(h.text)) || shares_word(q, lowercase_of(h.text)))
        }),
{
    let q = lowercase_of(query);
    lemma_fact_hits(s.all_facts(), q);
    match s.persona.items_at("master"@) {
        Some(items) => {
            let texts = entry_texts(items);
            lemma_add_contains(fact_hits(s.all_facts(), q), entry_hits(texts, q), h);
            lemma_entry_hits(texts, q);
            if !fact_hits(s.all_facts(), q).contains(h) {
                lemma_entry_texts(items, h.text);
            }
        },
        None => {
            assert(s.hits(query) =~= fact_hits(s.all_facts(), q));
        },
    }
}

// ---------------------------------------------------------------------------
// What is shown of them
// ---------------------------------------------------------------------------

proof fn lemma_distinct(hits: Seq<HitView>)
    ensures
        distinct_hits(hits).len() <= hits.len(),
        forall|m: int|
            0 <= m < hits.len() ==> exists|k: int|
                0 <= k < distinct_hits(hits).len() && (#[trigger] distinct_hits(hits)[k]).text == (
                #[trigger] hits[m]).text,
    decreases hits.len(),
{
    if hits.len() > 0 {
        let rest = hits.drop_last();
        let kept = distinct_hits(rest);
        let all = distinct_hits(hits);
        lemma_distinct(rest);
        assert forall|m: int| 0 <= m < hits.len() implies exists|k: int|
            0 <= k < all.len() && (#[trigger] all[k]).text == (#[trigger] hits[m]).text by {
            if m < rest.len() {
                assert(rest[m] == hits[m]);
                let k = choose|k: int|
                    0 <= k < kept.len() && (#[trigger] kept[k]).text == rest[m].text;
                assert(all[k] == kept[k]);
            } else if all.len() > kept.len() {
                assert(all[kept.len() as int] == hits.last());
            } else {
                let k = choose|k: int|
                    0 <= k < kept.len() && (#[trigger] kept[k]).text == hits.last().text;
                assert(all[k] == kept[k]);
            }
        }
    }
}

/// What is kept of hits in order of importance: in that order too, and for each text the
/// most important hit.
proof fn lemma_distinct_in_order(hits: Seq<HitView>)
    requires
        forall|i: int, j: int|
            0 <= i < j < hits.len() ==> (#[trigger] hits[i]).importance >= (
            #[trigger] hits[j]).importance,
    ensures
        forall|i: int, j: int|
            0 <= i < j < distinct_hits(hits).len() ==> (#[trigger] distinct_hits(
                hits,
            )[i]).importance >= (#[trigger] distinct_hits(hits)[j]).importance,
        forall|k: int, m: int|
            0 <= k < distinct_hits(hits).len() && 0 <= m < hits.len() && (#[trigger] distinct_hits(
                hits,
            )[k]).text == (#[trigger] hits[m]).text ==> distinct_hits(hits)[k].importance
                >= hits[m].importance,
        distinct_hits(hits).len() > 0 ==> distinct_hits(hits).last().importance
            >= hits.last().importance,
        forall|k: int|
            0 <= k < distinct_hits(hits).len() ==> (#[trigger] distinct_hits(hits)[k]).importance
                >= hits.last().importance,
    decreases hits.len(),
{
    if hits.len() > 0 {
        let rest = hits.drop_last();
        let kept = distinct_hits(rest);
        let all = distinct_hits(hits);
        lemma_distinct_in_order(rest);
        assert forall|k: int| 0 <= k < all.len() implies (#[trigger] all[k]).importance
            >= hits.last().importance by {
            if k < kept.len() {
                assert(all[k] == kept[k]);
                assert(kept[k].importance >= rest.last().importance);
                assert(hits[rest.len() - 1] == rest.last());
                assert(hits[rest.len() - 1].importance >= hits[rest.len() as int].importance);
            }
        }
        assert forall|i: int, j: int| 0 <= i < j < all.len() implies (#[trigger] all[i]).importance
            >= (#[trigger] all[j]).importance by {
            assert(all[i] == kept[i]);
            if j < kept.len() {
                assert(all[j] == kept[j]);
            }
        }
        assert forall|k: int, m: int|
            0 <= k < all.len() && 0 <= m < hits.len() && (#[trigger] all[k]).text == (
            #[trigger] hits[m]).text implies all[k].importance >= hits[m].importance by {
            if m < rest.len() {
                assert(hits[m] == rest[m]);
                if k < kept.len() {
                    assert(all[k] == kept[k]);
                } else {
                    lemma_distinct(rest);
                    let n = choose|n: int|
                        0 <= n < kept.len() && (#[trigger] kept[n]).text == rest[m].text;
                    assert(kept[n].text == all[k].text);
                }
            }
        }
    }
}

/// What is shown of the hits: the most important first; each text once, by its most
/// important hit; as many as asked for, and one at least; and a hit is left out only where
/// its text is shown already or as many as asked for are shown that are no less important.
pub proof fn law_recall_shows_the_most_important(hits: Seq<HitView>, max_items: int, h: HitView)
    requires
        hits.contains(h),
    ensures
        ({
            let r = shown_hits(hits, max_items);
            let limit = if max_items < 1 {
                1
            } else {
                max_items
            };
            &&& 0 < r.len() <= limit
            &&& forall|i: int, j: int|
                0 <= i < j < r.len() ==> (#[trigger] r[i]).importance >= (
                #[trigger] r[j]).importance
            &&& forall|i: int|
                0 <= i < r.len() && (#[trigger] r[i]).text == h.text ==> r[i].importance
                    >= h.importance
            &&& {
                ||| exists|i: int| 0 <= i < r.len() && (#[trigger] r[i]).text == h.text
                ||| r.len() == limit && forall|i: int|
                    0 <= i < r.len() ==> (#[trigger] r[i]).importance >= h.importance
            }
        }),
{
    let before = |a: HitView, b: HitView| a.importance > b.importance;
    let sorted = sorted_by(hits, before);
    let d = distinct_hits(sorted);
    let r = shown_hits(hits, max_items);
    let limit = if max_items < 1 {
        1
    } else {
        max_items
    };
    crate::order::lemma_sort_in_order(hits, before);
    crate::order::lemma_sort_contains(hits, before, h);
    assert forall|i: int, j: int| 0 <= i < j < sorted.len() implies (#[trigger] sorted[i]).importance
        >= (#[trigger] sorted[j]).importance by {
        assert(!before(sorted[j], sorted[i]));
    }
    lemma_distinct(sorted);
    lemma_distinct_in_order(sorted);
    let m = choose|m: int| 0 <= m < sorted.len() && sorted[m] == h;
    assert(sorted[m].text == h.text);
    let k = choose|k: int| 0 <= k < d.len() && (#[trigger] d[k]).text == sorted[m].text;
    assert forall|i: int| 0 <= i < r.len() && (#[trigger] r[i]).text == h.text implies r[i].importance
        >= h.importance by {
        assert(d[i].text == sorted[m].text);
    }
    assert(forall|i: int| 0 <= i < r.len() ==> #[trigger] r[i] == d[i]);
    if k < r.len() {
        assert(r[k].text == h.text);
    } else {
        assert(d[k].importance >= sorted[m].importance);
        assert forall|i: int| 0 <= i < r.len() implies (#[trigger] r[i]).importance
            >= h.importance by {
            assert(d[i].importance >= d[k].importance);
        }
    }
}

/// What is recalled is nothing where nothing comes up, and otherwise a heading with a
/// numbered line for each hit that is shown, in their order: whom it is about, what it
/// says, and how long ago it was stored, where that is known.
pub proof fn law_recalled_text(s: StoreView, query: Seq<char>, max_items: int, now: Wall, k: int)
    requires
        0 <= k < shown_hits(s.hits(query), max_items).len(),
    ensures
        ({
            let h = shown_hits(s.hits(query), max_items)[k];
            let line = decimal(k + 1) + ". ["@ + crate::memory_prompts::label_of(h.entity) + "] "@
                + h.text;
            let r = s.recalled(query, max_items, now);
            &&& stands_in(r, line)
            &&& h.created_at.len() > 0 ==> stands_in(
                r,
                line + " ("@ + crate::recall::age_label(h.created_at, now) + ")"@,
            )
            &&& "【回忆到的】\n"@.is_prefix_of(r)
        }),
{
    let hits = shown_hits(s.hits(query), max_items);
    let h = hits[k];
    let lines = hit_lines(hits, now);
    let line = decimal(k + 1) + ". ["@ + crate::memory_prompts::label_of(h.entity) + "] "@ + h.text;
    let title = "【回忆到的】\n"@;
    let body = joined(lines, "\n"@);
    let r = s.recalled(query, max_items, now);
    assert(r == title + body);
    law_joined_holds_parts(lines, "\n"@, k);
    assert(lines[k] == line + crate::recall::hit_age(h, now));
    lemma_stands_in_part(title, body, Seq::empty(), lines[k]);
    lemma_stands_in_parts(r, line, crate::recall::hit_age(h, now));
    if h.created_at.len() > 0 {
        lemma_sum3(line, " ("@, crate::recall::age_label(h.created_at, now), ")"@);
    }
    assert(title =~= (title + body).subrange(0, title.len() as int));
}

proof fn lemma_sum3(a: Seq<char>, b: Seq<char>, c: Seq<char>, d: Seq<char>)
    ensures
        a + (b + c + d) == a + b + c + d,
{
    assert(a + (b + c + d) =~= a + b + c + d);
}

/// Nothing is recalled where nothing comes up.
pub proof fn law_nothing_recalled(s: StoreView, query: Seq<char>, max_items: int, now: Wall)
    ensures
        s.recalled(query, max_items, now).len() == 0 <==> s.hits(query).len() == 0,
{
    let before = |a: HitView, b: HitView| a.importance > b.importance;
    let hits = s.hits(query);
    let sorted = sorted_by(hits, before);
    crate::order::lemma_sort_keeps_items(hits, before);
    lemma_distinct(sorted);
    reveal_strlit("【回忆到的】\n");
    if hits.len() > 0 {
        assert(hits.contains(hits[0]));
        law_recall_shows_the_most_important(hits, max_items, hits[0]);
    }
}

// ---------------------------------------------------------------------------
// Texts that say the same
// ---------------------------------------------------------------------------

/// A character that says little of its own.
pub open spec fn says_little(c: char) -> bool {
    c == '的' || c == '了' || c == '在' || c == '是' || c == '一' || c == '下' || c == '和' || c == '与'
        || c == '及' || c == '就' || c == '都' || c == '还' || c == '很' || c == '也' || c == '这' || c
        == '那' || c == '被' || c == '把' || c == '为'
}

/// A text without the characters that say little.
pub open spec fn gist(s: Seq<char>) -> Seq<char> {
    s.filter(|c: char| !says_little(c))
}

proof fn lemma_fillers(c: char)
    ensures
        crate::recall::fillers().contains(c) <==> says_little(c),
{
    let f = crate::recall::fillers();
    assert(f.len() == 19);
    if says_little(c) {
        assert(f[0] == '的' && f[1] == '了' && f[2] == '在' && f[3] == '是' && f[4] == '一' && f[5]
            == '下' && f[6] == '和' && f[7] == '与' && f[8] == '及' && f[9] == '就' && f[10] == '都'
            && f[11] == '还' && f[12] == '很' && f[13] == '也' && f[14] == '这' && f[15] == '那'
            && f[16] == '被' && f[17] == '把' && f[18] == '为');
    }
    if f.contains(c) {
        let k = choose|k: int| 0 <= k < f.len() && f[k] == c;
    }
}

/// The core of a text is its gist, and the word for a name says nothing in it.
pub proof fn law_core(x: Seq<char>, y: Seq<char>)
    ensures
        !stands_in(x, "名字"@) ==> core_of(x) == gist(x),
        !stands_in(x + y, "名字"@) ==> core_of(x + "名字"@ + y) == gist(x + y),
{
    let used = |c: char| !crate::recall::fillers().contains(c);
    let raw = |c: char| !says_little(c);
    assert(used =~= raw) by {
        assert forall|c: char| #[trigger] used(c) == raw(c) by {
            lemma_fillers(c);
        }
    }
    let w = "名字"@;
    reveal_strlit("名字");
    reveal_strlit("");
    if !stands_in(x, w) {
        law_replaced_nothing(x, w, ""@);
    }
    if !stands_in(x + y, w) {
        let s = x + w + y;
        assert forall|k: int| 0 <= k < x.len() implies !#[trigger] stands_at_place(s, w, k) by {
            if stands_at_place(s, w, k) {
                let both = s.subrange(k, k + 2);
                assert(both[0] == s[k] && both[1] == s[k + 1]);
                if k + 1 < x.len() {
                    assert((x + y).subrange(k, k + 2) =~= w);
                    assert(stands_at_place(x + y, w, k));
                } else {
                    assert(s[k + 1] == w[0]);
                    assert(w[0] != w[1]);
                }
            }
        }
        law_replaced_first(x, w, y, ""@);
        assert(!stands_in(y, w)) by {
            if stands_in(y, w) {
                lemma_stands_in_part(x, y, Seq::empty(), w);
            }
        }
        law_replaced_nothing(y, w, ""@);
        assert(x + ""@ + y =~= x + y);
    }
}

/// Two texts say the same if and only if the gist of the one has four bytes or more and
/// stands in the gist of the other, or they are alike to 85 hundredths. This is told of texts
/// without the word for a name, which says nothing.
pub proof fn law_same_information(a: Seq<char>, b: Seq<char>)
    requires
        !stands_in(a, "名字"@),
        !stands_in(b, "名字"@),
    ensures
        says_same(a, b) <==> {
            ||| byte_size(gist(a)) >= 4 && stands_in(gist(b), gist(a))
            ||| byte_size(gist(b)) >= 4 && stands_in(gist(a), gist(b))
            ||| a.len() >= 2 && b.len() >= 2 && 200 * bigrams(a).intersect(bigrams(b)).len() >= 85
                * (bigrams(a).len() + bigrams(b).len())
        },
{
    law_core(a, Seq::empty());
    law_core(b, Seq::empty());
    law_text_stands_in(gist(b), gist(a), Seq::empty(), Seq::empty());
    law_text_stands_in(gist(a), gist(b), Seq::empty(), Seq::empty());
}

/// A text with the word for a name in it says the same as the text without it, as soon as
/// the gist has four bytes.
pub proof fn law_name_says_nothing(x: Seq<char>, y: Seq<char>)
    requires
        !stands_in(x + y, "名字"@),
        byte_size(gist(x + y)) >= 4,
    ensures
        says_same(x + y, x + "名字"@ + y),
{
    law_core(x, y);
    law_core(x + y, Seq::empty());
    let g = gist(x + y);
    assert(g.subrange(0, g.len() as int) =~= g);
    assert(stands_at_place(g, g, 0));
    law_text_stands_in(g, g, Seq::empty(), Seq::empty());
}

// ---------------------------------------------------------------------------
// The context for a prompt
// ---------------------------------------------------------------------------

proof fn lemma_distinct_facts(facts: Seq<FactView>, m: int)
    requires
        0 <= m < facts.len(),
    ensures
        exists|k: int, n: int|
            0 <= k < distinct_facts(facts).len() && 0 <= n <= m && (#[trigger] distinct_facts(
                facts,
            )[k]) == (#[trigger] facts[n]) && (n == m || says_same(facts[n].text, facts[m].text)),
    decreases facts.len(),
{
    let rest = facts.drop_last();
    let kept = distinct_facts(rest);
    let all = distinct_facts(facts);
    if m < rest.len() {
        lemma_distinct_facts(rest, m);
        let (k, n) = choose|k: int, n: int|
            0 <= k < kept.len() && 0 <= n <= m && (#[trigger] kept[k]) == (#[trigger] rest[n]) && (n
                == m || says_same(rest[n].text, rest[m].text));
        assert(all[k] == kept[k]);
        assert(facts[n] == rest[n] && facts[m] == rest[m]);
    } else if exists|k: int|
        0 <= k < kept.len() && says_same((#[trigger] kept[k]).text, facts.last().text) {
        let k = choose|k: int|
            0 <= k < kept.len() && says_same((#[trigger] kept[k]).text, facts.last().text);
        lemma_kept_facts(rest, k);
        let n = choose|n: int| 0 <= n < rest.len() && #[trigger] rest[n] == kept[k];
        assert(all[k] == kept[k]);
        assert(facts[n] == rest[n]);
    } else {
        assert(all[kept.len() as int] == facts[m]);
    }
}

proof fn lemma_kept_facts(facts: Seq<FactView>, k: int)
    requires
        0 <= k < distinct_facts(facts).len(),
    ensures
        exists|n: int| 0 <= n < facts.len() && #[trigger] facts[n] == distinct_facts(facts)[k],
    decreases facts.len(),
{
    if facts.len() > 0 {
        let rest = facts.drop_last();
        let kept = distinct_facts(rest);
        if k < kept.len() {
            lemma_kept_facts(rest, k);
            let n = choose|n: int| 0 <= n < rest.len() && #[trigger] rest[n] == kept[k];
            assert(facts[n] == distinct_facts(facts)[k]);
        } else {
            assert(facts[facts.len() - 1] == distinct_facts(facts)[k]);
        }
    }
}

/// Whether a fact comes no later than another by its importance and, of one importance, by
/// its date, the newer first.
pub open spec fn weighs_as_much(a: FactView, b: FactView) -> bool {
    a.importance > b.importance || a.importance == b.importance && !crate::order::text_before(
        a.created_at,
        b.created_at,
    )
}

proof fn lemma_weight_order()
    ensures
        crate::order::is_order(|a: FactView, b: FactView| crate::memory::weight_before(a, b)),
{
    let before = |a: FactView, b: FactView| crate::memory::weight_before(a, b);
    assert forall|a: FactView, b: FactView| #[trigger] before(a, b) implies !before(b, a) by {
        crate::order::lemma_text_order_total(a.created_at, b.created_at);
    }
    assert forall|a: FactView, b: FactView, c: FactView|
        !#[trigger] before(b, a) && !#[trigger] before(c, b) implies !before(c, a) by {
        if a.importance == b.importance && b.importance == c.importance {
            crate::order::lemma_text_order_transitive(c.created_at, b.created_at, a.created_at);
        }
    }
}

proof fn lemma_kept_in_order(facts: Seq<FactView>, before: spec_fn(FactView, FactView) -> bool)
    requires
        crate::order::in_order(facts, before),
        crate::order::is_order(before),
    ensures
        crate::order::in_order(distinct_facts(facts), before),
        forall|k: int|
            0 <= k < distinct_facts(facts).len() && facts.len() > 0 ==> !before(
                facts.last(),
                #[trigger] distinct_facts(facts)[k],
            ),
    decreases facts.len(),
{
    if facts.len() > 0 {
        let rest = facts.drop_last();
        let kept = distinct_facts(rest);
        let all = distinct_facts(facts);
        assert forall|i: int, j: int| 0 <= i < j < rest.len() implies !before(
            #[trigger] rest[j],
            #[trigger] rest[i],
        ) by {
            assert(!before(facts[j], facts[i]));
        }
        lemma_kept_in_order(rest, before);
        assert forall|k: int| 0 <= k < all.len() implies !before(facts.last(), #[trigger] all[k]) by {
            if k < kept.len() {
                assert(all[k] == kept[k]);
                assert(!before(rest.last(), kept[k]));
                assert(!before(facts[rest.len() as int], facts[rest.len() - 1]));
            } else {
                assert(all[k] == facts.last());
                if before(all[k], all[k]) {
                    assert(!before(all[k], all[k]));
                }
            }
        }
        assert forall|i: int, j: int| 0 <= i < j < all.len() implies !before(
            #[trigger] all[j],
            #[trigger] all[i],
        ) by {
            assert(all[i] == kept[i]);
            if j < kept.len() {
                assert(all[j] == kept[j]);
            }
        }
    }
}

/// The facts in a context: they come by importance and date; as many as asked for, and one
/// at least; and a fact of importance five or more is missing only where one that weighs as
/// much says the same, or where as many as asked for weigh as much.
pub proof fn law_context_shows_the_weightiest(facts: Seq<FactView>, max_facts: int, f: FactView)
    requires
        facts.contains(f),
        f.importance >= 5,
    ensures
        ({
            let r = context_facts(facts, max_facts);
            let limit = if max_facts < 1 {
                1
            } else {
                max_facts
            };
            &&& 0 < r.len() <= limit
            &&& forall|i: int, j: int|
                0 <= i < j < r.len() ==> weighs_as_much(#[trigger] r[i], #[trigger] r[j])
            &&& {
                ||| r.contains(f)
                ||| exists|i: int|
                    0 <= i < r.len() && says_same((#[trigger] r[i]).text, f.text) && weighs_as_much(
                        r[i],
                        f,
                    )
                ||| r.len() == limit && forall|i: int|
                    0 <= i < r.len() ==> weighs_as_much(#[trigger] r[i], f)
            }
        }),
{
    let pick = |f: FactView| f.importance >= 5;
    let before = |a: FactView, b: FactView| crate::memory::weight_before(a, b);
    let picked = facts.filter(pick);
    let sorted = facts_by_weight(picked);
    let d = distinct_facts(sorted);
    let r = context_facts(facts, max_facts);
    let i = choose|i: int| 0 <= i < facts.len() && facts[i] == f;
    facts.lemma_filter_contains(pick, i);
    crate::order::lemma_sort_contains(picked, before, f);
    lemma_weight_order();
    crate::order::lemma_sort_in_order(picked, before);
    lemma_kept_in_order(sorted, before);
    let m = choose|m: int| 0 <= m < sorted.len() && sorted[m] == f;
    lemma_distinct_facts(sorted, m);
    let (k, n) = choose|k: int, n: int|
        0 <= k < d.len() && 0 <= n <= m && (#[trigger] d[k]) == (#[trigger] sorted[n]) && (n == m
            || says_same(sorted[n].text, sorted[m].text));
    assert(forall|a: int| 0 <= a < r.len() ==> #[trigger] r[a] == d[a]);
    assert forall|a: int, b: int| 0 <= a < b < r.len() implies weighs_as_much(
        #[trigger] r[a],
        #[trigger] r[b],
    ) by {
        assert(!before(d[b], d[a]));
        crate::order::lemma_text_order_total(d[a].created_at, d[b].created_at);
    }
    assert(!before(f, d[k])) by {
        if n < m {
            assert(!before(sorted[m], sorted[n]));
        } else if before(f, f) {
            assert(!before(f, f));
        }
    }
    assert(weighs_as_much(d[k], f));
    if k < r.len() {
        if n == m {
            assert(r[k] == f);
        } else {
            assert(says_same(r[k].text, f.text));
        }
    } else {
        assert forall|a: int| 0 <= a < r.len() implies weighs_as_much(#[trigger] r[a], f) by {
            assert(!before(d[k], d[a]));
            assert(!before(f, d[a]));
        }
    }
}

proof fn lemma_impressions(rs: Seq<ReflectionView>, scores: Seq<i64>, n: int, x: ImpressionView)
    requires
        0 <= n <= rs.len(),
    ensures
        impressions_upto(rs, scores, n).contains(x) <==> exists|i: int|
            0 <= i < n && ((#[trigger] rs[i]).status == "confirmed"@ || rs[i].status == "pending"@)
                && x.entity == rs[i].entity && x.text == rs[i].text && x.score == scores[i],
    decreases n,
{
    if n > 0 {
        lemma_impressions(rs, scores, n - 1, x);
        let r = rs[n - 1];
        let new = ImpressionView { entity: r.entity, text: r.text, score: scores[n - 1] };
        let rest = impressions_upto(rs, scores, n - 1);
        crate::order::lemma_push_contains(rest, new, x);
        if impressions_upto(rs, scores, n).contains(x) {
            if rest.contains(x) {
                let i = choose|i: int|
                    0 <= i < n - 1 && ((#[trigger] rs[i]).status == "confirmed"@ || rs[i].status
                        == "pending"@) && x.entity == rs[i].entity && x.text == rs[i].text && x.score
                        == scores[i];
                assert(x.text == rs[i].text);
            } else {
                assert(x.text == rs[n - 1].text);
            }
        }
    }
}

/// The impressions in a context: reflections that are pending or confirmed, with a score
/// above zero, the highest score first, five at most; one that is missing has no higher score
/// than any of five.
pub proof fn law_context_impressions(
    rs: Seq<ReflectionView>,
    scores: Seq<i64>,
    i: int,
)
    requires
        0 <= i < rs.len(),
        scores.len() == rs.len(),
        rs[i].status == "confirmed"@ || rs[i].status == "pending"@,
        scores[i] > 0,
    ensures
        ({
            let r = context_impressions(rs, scores);
            let x = ImpressionView { entity: rs[i].entity, text: rs[i].text, score: scores[i] };
            &&& r.len() <= 5
            &&& forall|a: int, b: int|
                0 <= a < b < r.len() ==> (#[trigger] r[a]).score >= (#[trigger] r[b]).score
            &&& forall|a: int| 0 <= a < r.len() ==> (#[trigger] r[a]).score > 0
            &&& r.contains(x) || r.len() == 5 && forall|a: int|
                0 <= a < r.len() ==> (#[trigger] r[a]).score >= scores[i]
        }),
{
    let n = rs.len() as int;
    let x = ImpressionView { entity: rs[i].entity, text: rs[i].text, score: scores[i] };
    let before = |a: ImpressionView, b: ImpressionView| a.score > b.score;
    let pick = |x: ImpressionView| x.score > 0;
    let all = impressions_upto(rs, scores, n);
    let sorted = sorted_by(all, before);
    let good = sorted.filter(pick);
    let r = context_impressions(rs, scores);
    lemma_impressions(rs, scores, n, x);
    assert(all.contains(x));
    crate::order::lemma_sort_contains(all, before, x);
    crate::order::lemma_sort_in_order(all, before);
    lemma_filter_in_order(sorted, pick, before);
    let k = choose|k: int| 0 <= k < sorted.len() && sorted[k] == x;
    sorted.lemma_filter_contains(pick, k);
    let m = choose|m: int| 0 <= m < good.len() && good[m] == x;
    assert(forall|a: int| 0 <= a < r.len() ==> #[trigger] r[a] == good[a]);
    assert forall|a: int, b: int| 0 <= a < b < r.len() implies (#[trigger] r[a]).score >= (
    #[trigger] r[b]).score by {
        assert(!before(good[b], good[a]));
    }
    assert forall|a: int| 0 <= a < r.len() implies (#[trigger] r[a]).score > 0 by {
        assert(good.contains(good[a]));
        crate::memory::lemma_filter_contains(sorted, pick, good[a]);
    }
    if m < r.len() {
        assert(r[m] == x);
    } else {
        assert forall|a: int| 0 <= a < r.len() implies (#[trigger] r[a]).score >= scores[i] by {
            assert(!before(good[m], good[a]));
        }
    }
}

/// Nothing else is among the impressions.
pub proof fn law_context_impressions_sound(rs: Seq<ReflectionView>, scores: Seq<i64>, a: int)
    requires
        0 <= a < context_impressions(rs, scores).len(),
    ensures
        exists|i: int|
            0 <= i < rs.len() && ((#[trigger] rs[i]).status == "confirmed"@ || rs[i].status
                == "pending"@) && context_impressions(rs, scores)[a].text == rs[i].text
                && context_impressions(rs, scores)[a].entity == rs[i].entity
                && context_impressions(rs, scores)[a].score == scores[i],
{
    let n = rs.len() as int;
    let before = |a: ImpressionView, b: ImpressionView| a.score > b.score;
    let pick = |x: ImpressionView| x.score > 0;
    let all = impressions_upto(rs, scores, n);
    let sorted = sorted_by(all, before);
    let good = sorted.filter(pick);
    let x = context_impressions(rs, scores)[a];
    assert(good[a] == x);
    assert(good.contains(x));
    crate::memory::lemma_filter_contains(sorted, pick, x);
    crate::order::lemma_sort_contains(all, before, x);
    lemma_impressions(rs, scores, n, x);
}

proof fn lemma_filter_in_order<T>(
    s: Seq<T>,
    pick: spec_fn(T) -> bool,
    before: spec_fn(T, T) -> bool,
)
    requires
        crate::order::in_order(s, before),
    ensures
        crate::order::in_order(s.filter(pick), before),
    decreases s.len(),
{
    reveal(Seq::filter);
    if s.len() > 0 {
        let rest = s.drop_last();
        let kept = rest.filter(pick);
        assert forall|i: int, j: int| 0 <= i < j < rest.len() implies !before(
            #[trigger] rest[j],
            #[trigger] rest[i],
        ) by {
            assert(!before(s[j], s[i]));
        }
        lemma_filter_in_order(rest, pick, before);
        let all = s.filter(pick);
        assert forall|i: int, j: int| 0 <= i < j < all.len() implies !before(
            #[trigger] all[j],
            #[trigger] all[i],
        ) by {
            assert(all[i] == kept[i]);
            if j < kept.len() {
                assert(all[j] == kept[j]);
            } else {
                assert(kept.contains(kept[i]));
                crate::memory::lemma_filter_contains(rest, pick, kept[i]);
                let k = choose|k: int| 0 <= k < rest.len() && rest[k] == kept[i];
                assert(s[k] == kept[i]);
                assert(!before(s[s.len() - 1], s[k]));
            }
        }
    }
}

/// A section comes into the context as a whole if it still fits, and else not at all.
pub proof fn law_section(out: Seq<char>, section: Seq<char>, max: int)
    ensures
        byte_size(out) + byte_size(section) <= max ==> crate::recall::with_section(
            out,
            section,
            max,
        ) == out + section,
        byte_size(out) + byte_size(section) > max ==> crate::recall::with_section(out, section, max)
            == out,
{
}

proof fn lemma_items(out: Seq<char>, texts: Seq<Seq<char>>, i: int)
    requires
        0 <= i < texts.len(),
    ensures
        stands_in(crate::recall::with_items(out, texts), "- "@ + texts[i] + "\n"@),
    decreases texts.len(),
{
    let rest = texts.drop_last();
    let front = crate::recall::with_items(out, rest);
    let line = "- "@ + texts.last() + "\n"@;
    assert(crate::recall::with_items(out, texts) =~= front + line);
    if i < rest.len() {
        lemma_items(out, rest, i);
        lemma_stands_in_part(Seq::empty(), front, line, "- "@ + texts[i] + "\n"@);
    } else {
        lemma_stands_in_sum(front, line, Seq::empty());
    }
}

/// A section on an entity has a line for each entry that has a text.
pub proof fn law_persona_section(
    persona: JsonView,
    entity: Seq<char>,
    label: Seq<char>,
    items: Seq<JsonView>,
    i: int,
    t: Seq<char>,
)
    requires
        persona.items_at(entity) == Some(items),
        0 <= i < items.len(),
        items[i].text_at("text"@) == Some(t),
    ensures
        stands_in(crate::recall::persona_section(persona, entity, label), "- "@ + t + "\n"@),
        ("【"@ + label + "】\n"@).is_prefix_of(
            crate::recall::persona_section(persona, entity, label),
        ),
{
    let texts = entry_texts(items);
    lemma_entry_texts(items, t);
    let k = choose|k: int| 0 <= k < texts.len() && texts[k] == t;
    lemma_items("【"@ + label + "】\n"@, texts, k);
    lemma_items_front("【"@ + label + "】\n"@, texts);
}

proof fn lemma_items_front(out: Seq<char>, texts: Seq<Seq<char>>)
    ensures
        out.is_prefix_of(crate::recall::with_items(out, texts)),
    decreases texts.len(),
{
    if texts.len() > 0 {
        let front = crate::recall::with_items(out, texts.drop_last());
        lemma_items_front(out, texts.drop_last());
        let all = crate::recall::with_items(out, texts);
        assert(out =~= all.subrange(0, out.len() as int)) by {
            assert(out =~= front.subrange(0, out.len() as int));
        }
    }
}

/// A section on facts has a line for each: whom it is about, what it says, and how long ago
/// it was stored.
pub proof fn law_facts_section(facts: Seq<FactView>, now: Wall, i: int)
    requires
        0 <= i < facts.len(),
    ensures
        stands_in(
            crate::recall::facts_section(facts, now),
            "- ["@ + crate::memory_prompts::label_of(facts[i].entity) + "] "@ + facts[i].text
                + " ("@ + crate::recall::age_label(facts[i].created_at, now) + ")\n"@,
        ),
{
    lemma_fact_lines("【记住的事】\n"@, facts, now, i);
}

spec fn fact_line(f: FactView, now: Wall) -> Seq<char> {
    "- ["@ + crate::memory_prompts::label_of(f.entity) + "] "@ + f.text + " ("@
        + crate::recall::age_label(f.created_at, now) + ")\n"@
}

proof fn lemma_fact_lines(out: Seq<char>, facts: Seq<FactView>, now: Wall, i: int)
    requires
        0 <= i < facts.len(),
    ensures
        stands_in(crate::recall::with_facts_lines(out, facts, now), fact_line(facts[i], now)),
    decreases facts.len(),
{
    let rest = facts.drop_last();
    let front = crate::recall::with_facts_lines(out, rest, now);
    let line = fact_line(facts.last(), now);
    assert(crate::recall::with_facts_lines(out, facts, now) =~= front + line);
    if i < rest.len() {
        lemma_fact_lines(out, rest, now, i);
        lemma_stands_in_part(Seq::empty(), front, line, fact_line(facts[i], now));
    } else {
        lemma_stands_in_sum(front, line, Seq::empty());
    }
}

/// A section on impressions has a line for each: whom it is about and what it says.
pub proof fn law_impressions_section(xs: Seq<ImpressionView>, i: int)
    requires
        0 <= i < xs.len(),
    ensures
        stands_in(
            crate::recall::impressions_section(xs),
            "- ["@ + crate::memory_prompts::label_of(xs[i].entity) + "] "@ + xs[i].text + "\n"@,
        ),
{
    lemma_impression_lines("【关于你的印象】\n"@, xs, i);
}

spec fn impression_line(x: ImpressionView) -> Seq<char> {
    "- ["@ + crate::memory_prompts::label_of(x.entity) + "] "@ + x.text + "\n"@
}

proof fn lemma_impression_lines(out: Seq<char>, xs: Seq<ImpressionView>, i: int)
    requires
        0 <= i < xs.len(),
    ensures
        stands_in(crate::recall::with_impressions(out, xs), impression_line(xs[i])),
    decreases xs.len(),
{
    let rest = xs.drop_last();
    let front = crate::recall::with_impressions(out, rest);
    let line = impression_line(xs.last());
    assert(crate::recall::with_impressions(out, xs) =~= front + line);
    if i < rest.len() {
        lemma_impression_lines(out, rest, i);
        lemma_stands_in_part(Seq::empty(), front, line, impression_line(xs[i]));
    } else {
        lemma_stands_in_sum(front, line, Seq::empty());
    }
}

/// Where everything fits, the context is what is known of the user, of the companion and of
/// their relationship, then the facts, then the impressions, one behind the other.
pub proof fn law_context(s: StoreView, max_facts: int, max: int, scores: Seq<i64>, now: Wall)
    ensures
        ({
            let a = crate::recall::persona_section(s.persona, "master"@, "关于主人"@);
            let b = crate::recall::persona_section(s.persona, "neko"@, "关于优香"@);
            let c = crate::recall::persona_section(s.persona, "relationship"@, "关于我们的关系"@);
            let d = crate::recall::facts_section(context_facts(s.all_facts(), max_facts), now);
            let e = crate::recall::impressions_section(
                context_impressions(s.reflections, scores),
            );
            byte_size(a + b + c + d + e) <= max ==> s.context(max_facts, max, scores, now) == a + b
                + c + d + e
        }),
{
    let a = crate::recall::persona_section(s.persona, "master"@, "关于主人"@);
    let b = crate::recall::persona_section(s.persona, "neko"@, "关于优香"@);
    let c = crate::recall::persona_section(s.persona, "relationship"@, "关于我们的关系"@);
    let d = crate::recall::facts_section(context_facts(s.all_facts(), max_facts), now);
    let e = crate::recall::impressions_section(context_impressions(s.reflections, scores));
    let o = Seq::<char>::empty();
    crate::memory::lemma_byte_size(a + b + c + d, e);
    crate::memory::lemma_byte_size(a + b + c, d);
    crate::memory::lemma_byte_size(a + b, c);
    crate::memory::lemma_byte_size(a, b);
    crate::memory::lemma_byte_size(o, a);
    assert(o + a =~= a);
}

/// How long ago a memory is, by the whole days since its date; today where the date cannot be
/// read.
pub proof fn law_age_of_memory(created_at: Seq<char>, now: Wall)
    ensures
        crate::clock::wall_read(created_at, "%Y-%m-%dT%H:%M:%S"@) matches Some(t)
            ==> crate::recall::age_label(created_at, now) == crate::memory_prompts::ago(
            crate::clock::wall_days(t, now) * 1000,
        ),
        crate::clock::wall_read(created_at, "%Y-%m-%dT%H:%M:%S"@) is None
            ==> crate::recall::age_label(created_at, now) == "今天"@,
{
}

} // verus!
