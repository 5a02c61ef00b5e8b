//! What reflections promise: what they are drawn from, what speaks for and against them, and
//! how far they come; and what of a conversation is left open.

use crate::json::JsonView;
use crate::memory::{FactView, ReflectionView, StoreView};
use crate::memory_reflect::{
    new_reflection, pool_of, reflection_id, signal_in, signals_count, signals_upto, top_importance,
    weight_of,
};
use crate::open_threads::{distinct_threads, texts_among, threads_kept};
use crate::order::sorted_by;
use crate::reflections::{advanced, confirmed_days, is_confirmed, is_promoted, place_of, signalled};
use crate::text::trimmed;
use vstd::prelude::*;

verus! {

/// One, as the scores of reflections are ranked.
pub const SCORE_ONE: i64 = 0x3ff0_0000_0000_0000;

/// Two, as the scores of reflections are ranked.
pub const SCORE_TWO: i64 = 0x4000_0000_0000_0000;

// ---------------------------------------------------------------------------
// Finding and adding
// ---------------------------------------------------------------------------

/// A reflection is found by its id, and of several the first.
pub proof fn law_place(rs: Seq<ReflectionView>, id: Seq<char>, from: int)
    requires
        0 <= from,
    ensures
        place_of(rs, id, from) is None <==> forall|i: int|
            from <= i < rs.len() ==> (#[trigger] rs[i]).id != id,
        place_of(rs, id, from) matches Some(k) ==> from <= k < rs.len() && rs[k].id == id && forall|
            i: int,
        |
            from <= i < k ==> (#[trigger] rs[i]).id != id,
    decreases rs.len() - from,
{
    if from < rs.len() && rs[from].id != id {
        law_place(rs, id, from + 1);
    }
}

/// A reflection is added behind the others, unless there is one with its id; then nothing
/// changes.
pub proof fn law_reflection_added(s: StoreView, r: ReflectionView)
    ensures
        (exists|i: int| 0 <= i < s.reflections.len() && (#[trigger] s.reflections[i]).id == r.id)
            ==> s.with_reflection(r) == s,
        (forall|i: int| 0 <= i < s.reflections.len() ==> (#[trigger] s.reflections[i]).id != r.id)
            ==> s.with_reflection(r) == (StoreView { reflections: s.reflections.push(r), ..s }),
{
    law_place(s.reflections, r.id, 0);
}

// ---------------------------------------------------------------------------
// Drawing reflections
// ---------------------------------------------------------------------------

/// A reflection is drawn only where five facts or more of importance five or more have not
/// been drawn on.
pub proof fn law_enough_facts(s: StoreView)
    ensures
        s.may_reflect() <==> s.all_facts().filter(
            |f: FactView| !f.absorbed && f.importance >= 5,
        ).len() >= 5,
{
}

/// A reflection is drawn from the twenty most important of these facts, the most important
/// first; one that is left out is no more important than any that is not.
pub proof fn law_pool(facts: Seq<FactView>, f: FactView)
    requires
        facts.contains(f),
    ensures
        ({
            let r = pool_of(facts);
            &&& 0 < r.len() <= 20
            &&& facts.len() <= 20 ==> r.len() == facts.len()
            &&& forall|i: int, j: int|
                0 <= i < j < r.len() ==> (#[trigger] r[i]).importance >= (
                #[trigger] r[j]).importance
            &&& forall|i: int| 0 <= i < r.len() ==> facts.contains(#[trigger] r[i])
            &&& r.contains(f) || r.len() == 20 && forall|i: int|
                0 <= i < r.len() ==> (#[trigger] r[i]).importance >= f.importance
        }),
{
    let before = |a: FactView, b: FactView| a.importance > b.importance;
    let sorted = sorted_by(facts, before);
    let r = pool_of(facts);
    crate::order::lemma_sort_keeps_items(facts, before);
    crate::order::lemma_sort_contains(facts, before, f);
    crate::order::lemma_sort_in_order(facts, before);
    assert forall|i: int, j: int| 0 <= i < j < r.len() implies (#[trigger] r[i]).importance >= (
    #[trigger] r[j]).importance by {
        assert(!before(sorted[j], sorted[i]));
    }
    assert forall|i: int| 0 <= i < r.len() implies facts.contains(#[trigger] r[i]) by {
        assert(sorted.contains(sorted[i]));
        crate::order::lemma_sort_contains(facts, before, sorted[i]);
    }
    let k = choose|k: int| 0 <= k < sorted.len() && sorted[k] == f;
    if k < r.len() {
        assert(r[k] == f);
    } else {
        assert forall|i: int| 0 <= i < r.len() implies (#[trigger] r[i]).importance
            >= f.importance by {
            assert(!before(sorted[k], sorted[i]));
        }
    }
}

/// The greatest importance of facts is that of one of them, and none has a greater.
pub proof fn law_top_importance(facts: Seq<FactView>)
    requires
        facts.len() > 0,
    ensures
        forall|i: int|
            0 <= i < facts.len() ==> (#[trigger] facts[i]).importance <= top_importance(facts),
        exists|i: int|
            0 <= i < facts.len() && (#[trigger] facts[i]).importance == top_importance(facts),
    decreases facts.len(),
{
    if facts.len() == 1 {
        assert(facts[0].importance == top_importance(facts));
    } else {
        let rest = facts.drop_last();
        law_top_importance(rest);
        assert forall|i: int| 0 <= i < facts.len() implies (#[trigger] facts[i]).importance
            <= top_importance(facts) by {
            if i < rest.len() {
                assert(rest[i].importance <= top_importance(rest));
            }
        }
        if facts.last().importance >= top_importance(rest) {
            assert(facts[facts.len() - 1].importance == top_importance(facts));
        } else {
            let i = choose|i: int|
                0 <= i < rest.len() && (#[trigger] rest[i]).importance == top_importance(rest);
            assert(facts[i].importance == top_importance(facts));
        }
    }
}

/// A new reflection is pending, says what the answer says, names the facts that it was drawn
/// from, has evidence by the greatest importance of these and nothing against it, and was
/// made now. What the answer leaves out is about the user and a pattern.
pub proof fn law_new_reflection(v: JsonView, pool: Seq<FactView>, now: Seq<char>)
    ensures
        ({
            let r = new_reflection(v, pool, now);
            &&& r.status == "pending"@
            &&& r.source_fact_ids.len() == pool.len()
            &&& forall|i: int|
                0 <= i < pool.len() ==> #[trigger] r.source_fact_ids[i] == pool[i].id
            &&& r.id == reflection_id(r.source_fact_ids)
            &&& r.reinforcement == crate::memory::seed_of(top_importance(pool))
            &&& r.disputation == 0
            &&& r.created_at == now
            &&& r.rein_last_signal_at == Some(now)
            &&& r.disp_last_signal_at is None
            &&& r.confirmed_at is None
            &&& v.text_at("reflection"@) matches Some(t) ==> r.text == trimmed(t)
            &&& v.text_at("entity"@) matches Some(t) ==> r.entity == t
            &&& v.text_at("entity"@) is None ==> r.entity == "master"@
            &&& v.text_at("relation_type"@) matches Some(t) ==> r.relation_type == t
            &&& v.text_at("temporal_scope"@) matches Some(t) ==> r.temporal_scope == t
            &&& v.text_at("temporal_scope"@) is None ==> r.temporal_scope == "pattern"@
        }),
{
}

// ---------------------------------------------------------------------------
// Evidence
// ---------------------------------------------------------------------------

/// A signal that speaks for a reflection adds to what speaks for it, and one that speaks
/// against it to what speaks against it, by its weight; the other side, and everything else
/// but the time of the signal, stays as it is.
pub proof fn law_signal(r: ReflectionView, delta: i64, now: Seq<char>)
    requires
        i64::MIN <= r.reinforcement + delta <= i64::MAX,
        i64::MIN <= r.disputation - delta <= i64::MAX,
    ensures
        delta >= 0 ==> signalled(r, delta, now) == (ReflectionView {
            reinforcement: (r.reinforcement + delta) as i64,
            rein_last_signal_at: Some(now),
            ..r
        }),
        delta < 0 ==> signalled(r, delta, now) == (ReflectionView {
            disputation: (r.disputation - delta) as i64,
            disp_last_signal_at: Some(now),
            ..r
        }),
{
}

/// A signal reaches the reflection with its id and no other.
pub proof fn law_signal_reaches_one(
    s: StoreView,
    id: Seq<char>,
    delta: i64,
    now: Seq<char>,
    i: int,
)
    requires
        0 <= i < s.reflections.len(),
    ensures
        s.reflections[i].id != id ==> s.with_signal(id, delta, now).reflections[i]
            == s.reflections[i],
        s.reflections[i].id == id && (forall|k: int|
            0 <= k < i ==> (#[trigger] s.reflections[k]).id != id) ==> s.with_signal(
            id,
            delta,
            now,
        ).reflections[i] == signalled(s.reflections[i], delta, now),
        s.with_signal(id, delta, now).facts == s.facts,
        s.with_signal(id, delta, now).persona == s.persona,
        s.with_signal(id, delta, now).recent == s.recent,
{
    law_place(s.reflections, id, 0);
}

/// What a signal weighs, in millionths: half a point for a reflection and a whole one
/// against it; half of that while it is pending; and any other word weighs nothing.
pub proof fn law_weight(signal: Seq<char>, status: Seq<char>)
    ensures
        signal == "reinforces"@ && status != "pending"@ ==> weight_of(signal, status) == Some(
            500_000i64,
        ),
        signal == "reinforces"@ && status == "pending"@ ==> weight_of(signal, status) == Some(
            250_000i64,
        ),
        signal == "negates"@ && status != "pending"@ ==> weight_of(signal, status) == Some(
            -1_000_000i64,
        ),
        signal == "negates"@ && status == "pending"@ ==> weight_of(signal, status) == Some(
            -500_000i64,
        ),
        signal != "reinforces"@ && signal != "negates"@ ==> weight_of(signal, status) is None,
{
    reveal_strlit("reinforces");
    reveal_strlit("negates");
    assert("reinforces"@.len() == 10 && "negates"@.len() == 7);
}

/// An item of an answer is a signal if and only if its target is one of the reflections that
/// were shown and its word is one of the two; it is then one for that target, with the weight
/// that the word has for it.
pub proof fn law_signal_in_answer(item: JsonView, observations: Seq<ReflectionView>, i: int)
    requires
        0 <= i < observations.len(),
        item.text_at("target_id"@) == Some(observations[i].id),
        forall|k: int| 0 <= k < i ==> (#[trigger] observations[k]).id != observations[i].id,
    ensures
        item.text_at("signal"@) matches Some(word) ==> match weight_of(
            word,
            observations[i].status,
        ) {
            Some(w) => signal_in(item, observations) == Some((observations[i].id, w)),
            None => signal_in(item, observations) is None,
        },
        item.text_at("signal"@) is None ==> signal_in(item, observations) is None,
{
    law_place(observations, observations[i].id, 0);
    reveal_strlit("");
    reveal_strlit("reinforces");
    reveal_strlit("negates");
    assert(""@.len() == 0 && "reinforces"@.len() == 10 && "negates"@.len() == 7);
}

/// The signals of an answer are applied one after the other and counted.
pub proof fn law_signals_applied(
    s: StoreView,
    items: Seq<JsonView>,
    observations: Seq<ReflectionView>,
    now: Seq<char>,
    n: int,
)
    requires
        0 <= n < items.len(),
    ensures
        signals_upto(s, items, observations, now, 0) == s,
        signals_count(items, observations, 0) == 0,
        signal_in(items[n], observations) is None ==> signals_upto(
            s,
            items,
            observations,
            now,
            n + 1,
        ) == signals_upto(s, items, observations, now, n) && signals_count(
            items,
            observations,
            n + 1,
        ) == signals_count(items, observations, n),
        signal_in(items[n], observations) matches Some(x) ==> signals_upto(
            s,
            items,
            observations,
            now,
            n + 1,
        ) == signals_upto(s, items, observations, now, n).with_signal(x.0, x.1, now)
            && signals_count(items, observations, n + 1) == signals_count(items, observations, n)
            + 1,
{
}

/// New facts are held against every reflection that is not archived, in their order.
pub proof fn law_observations(s: StoreView, r: ReflectionView)
    ensures
        s.observations().contains(r) <==> s.reflections.contains(r) && r.status != "archived"@,
{
    let pick = |r: ReflectionView| r.status != "archived"@;
    if s.observations().contains(r) {
        crate::memory::lemma_filter_contains(s.reflections, pick, r);
    }
    if s.reflections.contains(r) && pick(r) {
        let i = choose|i: int| 0 <= i < s.reflections.len() && s.reflections[i] == r;
        s.reflections.lemma_filter_contains(pick, i);
    }
}

// ---------------------------------------------------------------------------
// How far reflections come
// ---------------------------------------------------------------------------

/// A pending reflection is confirmed with a score of one or after seven days, archived with
/// a score of minus two and no such reason, and else stays. A confirmed one is promoted with
/// a score of two or seven days after it was confirmed, archived with a score of minus two
/// and no such reason, and else stays. All others stay. Confirming notes the time; nothing
/// else of a reflection changes.
pub proof fn law_review(
    r: ReflectionView,
    score: i64,
    age: int,
    confirmed_age: int,
    now: Seq<char>,
)
    ensures
        ({
            let q = advanced(r, score, age, confirmed_age, now);
            &&& r.status == "pending"@ && (score >= SCORE_ONE || age >= 7) ==> q == (
            ReflectionView { status: "confirmed"@, confirmed_at: Some(now), ..r })
            &&& r.status == "pending"@ && score < SCORE_ONE && age < 7 && score <= -SCORE_TWO
                ==> q == (ReflectionView { status: "archived"@, ..r })
            &&& r.status == "pending"@ && -SCORE_TWO < score < SCORE_ONE && age < 7 ==> q == r
            &&& r.status == "confirmed"@ && (score >= SCORE_TWO || confirmed_age >= 7) ==> q == (
            ReflectionView { status: "promoted"@, ..r })
            &&& r.status == "confirmed"@ && confirmed_age < 7 && score <= -SCORE_TWO ==> q == (
            ReflectionView { status: "archived"@, ..r })
            &&& r.status == "confirmed"@ && -SCORE_TWO < score < SCORE_TWO && confirmed_age < 7
                ==> q == r
            &&& r.status != "pending"@ && r.status != "confirmed"@ ==> q == r
        }),
{
    reveal_strlit("pending");
    reveal_strlit("confirmed");
    assert("pending"@.len() == 7 && "confirmed"@.len() == 9);
}

/// In a review each reflection is looked at by its own score, its age and, once confirmed,
/// the days since; one that does not say when it was confirmed counts as confirmed long ago.
pub proof fn law_review_of_all(s: StoreView, scores: Seq<i64>, now: Seq<char>, i: int)
    requires
        0 <= i < s.reflections.len(),
    ensures
        s.promoted(scores, now).reflections.len() == s.reflections.len(),
        s.promoted(scores, now).reflections[i] == advanced(
            s.reflections[i],
            scores[i],
            crate::clock::span_days(
                crate::clock::local_time(s.reflections[i].created_at),
                crate::clock::local_time(now),
            ),
            confirmed_days(s.reflections[i], now),
            now,
        ),
        s.reflections[i].confirmed_at is None ==> confirmed_days(s.reflections[i], now) >= 7,
        s.reflections[i].confirmed_at matches Some(t) ==> confirmed_days(s.reflections[i], now)
            == crate::clock::span_days(
            crate::clock::local_time(t),
            crate::clock::local_time(now),
        ),
{
}

/// What a review counts: each reflection that was pending and is confirmed now, and each that
/// was confirmed and is promoted now.
pub proof fn law_review_counts(s: StoreView, scores: Seq<i64>, now: Seq<char>, n: int)
    requires
        0 <= n < s.reflections.len(),
    ensures
        s.confirmed_count(scores, now, 0) == 0,
        s.promoted_count(scores, now, 0) == 0,
        s.confirmed_count(scores, now, n + 1) == s.confirmed_count(scores, now, n) + if (
        s.reflections[n].status == "pending"@ && s.promoted(scores, now).reflections[n].status
            == "confirmed"@) {
            1nat
        } else {
            0nat
        },
        s.promoted_count(scores, now, n + 1) == s.promoted_count(scores, now, n) + if (
        s.reflections[n].status == "confirmed"@ && s.promoted(scores, now).reflections[n].status
            == "promoted"@) {
            1nat
        } else {
            0nat
        },
{
}

/// A review changes neither the facts nor the conversation, and adds to the personas what
/// was promoted, and nothing else.
pub proof fn law_review_keeps_the_rest(s: StoreView, scores: Seq<i64>, now: Seq<char>, n: int)
    requires
        0 <= n <= s.reflections.len(),
    ensures
        s.personas_upto(scores, now, n).facts == s.facts,
        s.personas_upto(scores, now, n).recent == s.recent,
        (forall|i: int|
            0 <= i < n ==> !is_promoted(#[trigger] s.reflections[i], scores[i], now))
            ==> s.personas_upto(scores, now, n) == s,
        n < s.reflections.len() && is_promoted(s.reflections[n], scores[n], now)
            ==> s.personas_upto(scores, now, n + 1) == s.personas_upto(
            scores,
            now,
            n,
        ).with_persona(s.reflections[n].entity, s.reflections[n].text, now),
    decreases n,
{
    if n > 0 {
        law_review_keeps_the_rest(s, scores, now, n - 1);
    }
}

// ---------------------------------------------------------------------------
// Open threads
// ---------------------------------------------------------------------------

/// The texts among documents are those that are texts, in their order.
pub proof fn law_texts_among(items: Seq<JsonView>, v: JsonView)
    ensures
        texts_among(Seq::empty()) == Seq::<Seq<char>>::empty(),
        v matches JsonView::Text(t) ==> texts_among(items.push(v)) == texts_among(items).push(t),
        !(v is Text) ==> texts_among(items.push(v)) == texts_among(items),
{
    assert(items.push(v).drop_last() =~= items);
}

/// Threads are kept without white space round them, each once, in the order in which they
/// come first; blank ones are dropped, and nothing else is.
pub proof fn law_threads_distinct(threads: Seq<Seq<char>>, t: Seq<char>)
    ensures
        distinct_threads(Seq::empty()) == Seq::<Seq<char>>::empty(),
        trimmed(t).len() == 0 || distinct_threads(threads).contains(trimmed(t))
            ==> distinct_threads(threads.push(t)) == distinct_threads(threads),
        trimmed(t).len() > 0 && !distinct_threads(threads).contains(trimmed(t))
            ==> distinct_threads(threads.push(t)) == distinct_threads(threads).push(trimmed(t)),
        distinct_threads(threads).contains(t) <==> t.len() > 0 && exists|i: int|
            0 <= i < threads.len() && trimmed(#[trigger] threads[i]) == t,
    decreases threads.len(),
{
    assert(threads.push(t).drop_last() =~= threads);
    if threads.len() > 0 {
        let rest = threads.drop_last();
        let x = trimmed(threads.last());
        law_threads_distinct(rest, t);
        crate::order::lemma_push_contains(distinct_threads(rest), x, t);
        if distinct_threads(threads).contains(t) {
            if distinct_threads(rest).contains(t) {
                let i = choose|i: int| 0 <= i < rest.len() && trimmed(#[trigger] rest[i]) == t;
                assert(trimmed(threads[i]) == t);
            } else {
                assert(trimmed(threads[threads.len() - 1]) == t);
            }
        }
        if t.len() > 0 && exists|i: int|
            0 <= i < threads.len() && trimmed(#[trigger] threads[i]) == t {
            let i = choose|i: int| 0 <= i < threads.len() && trimmed(#[trigger] threads[i]) == t;
            if i < rest.len() {
                assert(trimmed(rest[i]) == t);
            }
        }
    }
}

/// Of the threads the first three are kept, and all where there are no more.
pub proof fn law_first_threads(threads: Seq<Seq<char>>)
    ensures
        threads_kept(threads).is_prefix_of(distinct_threads(threads)),
        distinct_threads(threads).len() <= 3 ==> threads_kept(threads) == distinct_threads(threads),
        distinct_threads(threads).len() > 3 ==> threads_kept(threads).len() == 3,
{
}

// ---------------------------------------------------------------------------
// Ids, lines and lists
// ---------------------------------------------------------------------------

/// The id of a reflection is sixteen hexadecimal digits behind its mark: those of the first
/// eight bytes of the digest.
pub proof fn law_id_of_digest(digest: Seq<u8>)
    requires
        digest.len() >= 8,
    ensures
        crate::memory_reflect::id_of_digest(digest).len() == 20,
        crate::memory_reflect::id_of_digest(digest) == "ref_"@ + crate::text::hex_of(
            digest.take(8),
        ),
{
    reveal_strlit("ref_");
    lemma_hex_front(digest, 8);
    let h = crate::text::hex_of(digest);
    assert(crate::text::head(h, 16) =~= h.take(16));
}

proof fn lemma_hex_front(bytes: Seq<u8>, n: int)
    requires
        0 <= n <= bytes.len(),
    ensures
        crate::text::hex_of(bytes).len() == 2 * bytes.len(),
        crate::text::hex_of(bytes.take(n)) == crate::text::hex_of(bytes).take(2 * n),
    decreases bytes.len(),
{
    if bytes.len() > 0 {
        let rest = bytes.drop_last();
        let h = crate::text::hex_of(rest);
        if n < bytes.len() {
            lemma_hex_front(rest, n);
            assert(rest.take(n) =~= bytes.take(n));
            assert(crate::text::hex_of(bytes).take(2 * n) =~= h.take(2 * n));
        } else {
            lemma_hex_front(rest, rest.len() as int);
            assert(bytes.take(n) =~= bytes);
            assert(crate::text::hex_of(bytes).take(2 * n) =~= crate::text::hex_of(bytes));
        }
    } else {
        assert(bytes.take(n) =~= bytes);
        assert(crate::text::hex_of(bytes).take(2 * n) =~= crate::text::hex_of(bytes));
    }
}

/// What is digested are the ids in their order, a line for each.
pub proof fn law_ids_digested(ids: Seq<Seq<char>>)
    ensures
        exists|sorted: Seq<Seq<char>>|
            crate::memory_reflect::ids_digested(ids) == #[trigger] vstd::utf8::encode_utf8(
                crate::text::joined(sorted, "\n"@),
            ) && sorted.to_multiset() == ids.to_multiset() && sorted.len() == ids.len(),
{
    let before = |a: Seq<char>, b: Seq<char>| crate::order::text_before(a, b);
    let sorted = sorted_by(ids, before);
    crate::order::lemma_sort_keeps_items(ids, before);
    assert(crate::memory_reflect::ids_digested(ids) == vstd::utf8::encode_utf8(
        crate::text::joined(sorted, "\n"@),
    ));
}

/// A reflection is drawn from the facts of importance five or more that none has drawn on,
/// and shown beside are those that one has drawn on.
pub proof fn law_facts_for_reflection(s: StoreView, f: FactView)
    ensures
        s.pool() == pool_of(
            s.all_facts().filter(|f: FactView| !f.absorbed && f.importance >= 5),
        ),
        s.absorbed() == s.all_facts().filter(|f: FactView| f.absorbed),
        crate::memory_reflect::weighed_line(f) == "- "@ + f.text + " (importance: "@
            + crate::text::decimal(f.importance as int) + ")"@,
{
}

/// Each fact is shown for the signals by its id and its text, and each reflection by its
/// entity, its id and its text.
pub proof fn law_signal_lines(f: FactView, r: ReflectionView)
    ensures
        crate::memory_reflect::signal_fact_line(f) == f.id + ": "@ + f.text,
        crate::memory_reflect::observation_line(r) == "reflection."@ + r.entity + "."@ + r.id + ": "@
            + r.text,
{
}

/// The signals of an answer are the items under `signals`, the open threads the texts under
/// `open_threads`, and the topics the items under `topics`; where there are none, there are
/// none.
pub proof fn law_lists_in_answers(v: JsonView, items: Seq<JsonView>)
    ensures
        v.items_at("signals"@) == Some(items) ==> crate::memory_reflect::signal_items(v) == items,
        v.items_at("signals"@) is None ==> crate::memory_reflect::signal_items(v).len() == 0,
        v.items_at("open_threads"@) == Some(items) ==> crate::open_threads::threads_listed(v)
            == texts_among(items),
        v.items_at("open_threads"@) is None ==> crate::open_threads::threads_listed(v).len() == 0,
        v.items_at("topics"@) == Some(items) ==> crate::topic::topics_listed(v) == items,
        v.items_at("topics"@) is None ==> crate::topic::topics_listed(v).len() == 0,
{
}

/// An answer on threads or topics is read without its fence; one that is no document has
/// none.
pub proof fn law_lists_read(raw: Seq<char>)
    ensures
        crate::json::json_read(crate::chat::unfenced(raw)) matches Ok(v)
            ==> crate::open_threads::threads_in(raw) == crate::open_threads::threads_listed(v)
            && crate::topic::topics_in(raw) == crate::topic::topics_listed(v),
        crate::json::json_read(crate::chat::unfenced(raw)) is Err
            ==> crate::open_threads::threads_in(raw).len() == 0 && crate::topic::topics_in(
            raw,
        ).len() == 0,
{
}

/// The time since a signal is counted in whole minutes, if both times are known.
pub proof fn law_evidence_age(then: crate::clock::Wall, now: crate::clock::Wall)
    ensures
        crate::reflections::evidence_age(Some(then), Some(now)) == Some(
            crate::clock::wall_minutes(then, now),
        ),
        crate::reflections::evidence_age(None, Some(now)) is None,
        crate::reflections::evidence_age(Some(then), None) is None,
{
}

/// A signal and a promotion are as the review tells.
pub proof fn law_promotion(r: ReflectionView, score: i64, now: Seq<char>)
    ensures
        is_promoted(r, score, now) <==> r.status == "confirmed"@ && (score >= SCORE_TWO
            || confirmed_days(r, now) >= 7),
        is_confirmed(r, score, now) <==> r.status == "pending"@ && (score >= SCORE_ONE
            || crate::clock::span_days(
            crate::clock::local_time(r.created_at),
            crate::clock::local_time(now),
        ) >= 7),
{
    reveal_strlit("pending");
    reveal_strlit("confirmed");
    reveal_strlit("promoted");
    reveal_strlit("archived");
    assert("pending"@.len() == 7 && "confirmed"@.len() == 9 && "promoted"@.len() == 8
        && "archived"@.len() == 8);
    assert("promoted"@[0] == 'p' && "archived"@[0] == 'a');
}

/// The older facts are shown beside, the first ten of them, and nothing where there are none.
pub proof fn law_related_facts(absorbed: Seq<FactView>, i: int)
    ensures
        absorbed.len() == 0 ==> crate::memory_reflect::related_block(absorbed).len() == 0,
        0 <= i < absorbed.len() && i < 10 ==> crate::text_laws::stands_in(
            crate::memory_reflect::related_block(absorbed),
            crate::memory_reflect::weighed_line(absorbed[i]) + "\n"@,
        ),
{
    if 0 <= i < absorbed.len() && i < 10 {
        let few = crate::order::at_most(absorbed, 10);
        let title = "以下为此前已确认的相关事实（避免新反思与其矛盾）：\n"@;
        lemma_weighed(title, few, i);
        crate::text_laws::lemma_stands_in_part(
            Seq::empty(),
            crate::memory_reflect::with_weighed(title, few),
            "\n"@,
            crate::memory_reflect::weighed_line(few[i]) + "\n"@,
        );
    }
}

proof fn lemma_weighed(out: Seq<char>, facts: Seq<FactView>, i: int)
    requires
        0 <= i < facts.len(),
    ensures
        crate::text_laws::stands_in(
            crate::memory_reflect::with_weighed(out, facts),
            crate::memory_reflect::weighed_line(facts[i]) + "\n"@,
        ),
    decreases facts.len(),
{
    let rest = facts.drop_last();
    let front = crate::memory_reflect::with_weighed(out, rest);
    let line = crate::memory_reflect::weighed_line(facts.last()) + "\n"@;
    assert(crate::memory_reflect::with_weighed(out, facts) =~= front + line);
    if i < rest.len() {
        lemma_weighed(out, rest, i);
        crate::text_laws::lemma_stands_in_part(
            Seq::empty(),
            front,
            line,
            crate::memory_reflect::weighed_line(facts[i]) + "\n"@,
        );
    } else {
        crate::text_laws::lemma_stands_in_sum(front, line, Seq::empty());
    }
}

/// There is a reflection on facts if one has the id that their ids give. Without facts the
/// greatest importance is none. What is said of an answer that is no document names the error
/// and the first hundred and fifty characters.
pub proof fn law_reflection_known(
    s: StoreView,
    ids: Seq<Seq<char>>,
    content: Seq<char>,
    e: Seq<char>,
)
    ensures
        s.has_reflection_on(ids) <==> exists|i: int|
            0 <= i < s.reflections.len() && (#[trigger] s.reflections[i]).id == reflection_id(ids),
        top_importance(Seq::empty()) == 0,
        crate::memory_reflect::reflection_broken(content, e) == "反思解析失败: "@ + e + "（原始: "@
            + crate::text::head(content, 150) + "）"@,
{
    law_place(s.reflections, reflection_id(ids), 0);
}

/// The question for a reflection shows each fact with its importance, in the place of the
/// mark for them.
pub proof fn law_reflection_question(
    pool: Seq<FactView>,
    absorbed: Seq<FactView>,
    companion: Seq<char>,
    user: Seq<char>,
    template: Seq<char>,
    i: int,
)
    requires
        template == crate::text::replaced(
            crate::text::replaced(
                crate::text::replaced(
                    crate::memory_prompts::REFLECTION_PROMPT@,
                    "{LANLAN_NAME}"@,
                    companion,
                ),
                "{MASTER_NAME}"@,
                user,
            ),
            "{RELATED_CONTEXT_BLOCK}"@,
            crate::memory_reflect::related_block(absorbed),
        ),
        crate::text_laws::stands_in(template, "{FACTS}"@),
        0 <= i < pool.len(),
    ensures
        crate::text_laws::stands_in(
            crate::memory_reflect::reflection_prompt(pool, absorbed, companion, user),
            "- "@ + pool[i].text + " (importance: "@ + crate::text::decimal(
                pool[i].importance as int,
            ) + ")"@,
        ),
{
    reveal_strlit("{FACTS}");
    let lines = crate::memory_reflect::weighed_lines(pool);
    let by = crate::text::joined(lines, "\n"@);
    crate::text_laws::law_replaced_stands(template, "{FACTS}"@, by);
    crate::text_laws::law_joined_holds_parts(lines, "\n"@, i);
    let r = crate::memory_reflect::reflection_prompt(pool, absorbed, companion, user);
    lemma_within(r, by, lines[i]);
}

/// What stands in a text stands wherever the text does.
proof fn lemma_within(r: Seq<char>, t: Seq<char>, w: Seq<char>)
    requires
        crate::text_laws::stands_in(r, t),
        crate::text_laws::stands_in(t, w),
    ensures
        crate::text_laws::stands_in(r, w),
{
    let k = choose|k: int| crate::text_laws::stands_at_place(r, t, k);
    let front = r.take(k);
    let back = r.skip(k + t.len());
    assert(r =~= front + t + back) by {
        assert(r.subrange(k, k + t.len()) == t);
    }
    crate::text_laws::lemma_stands_in_part(front, t, back, w);
}

/// The question for signals shows the first fifteen reflections, in the place of the mark for
/// them.
pub proof fn law_signal_question(
    facts: Seq<FactView>,
    observations: Seq<ReflectionView>,
    template: Seq<char>,
    i: int,
)
    requires
        template == crate::text::replaced(
            crate::memory_prompts::SIGNAL_DETECTION_PROMPT@,
            "{NEW_FACTS}"@,
            crate::text::joined(
                facts.map_values(|f: FactView| crate::memory_reflect::signal_fact_line(f)),
                "\n"@,
            ),
        ),
        crate::text_laws::stands_in(template, "{EXISTING_OBSERVATIONS}"@),
        0 <= i < observations.len(),
        i < 15,
    ensures
        crate::text_laws::stands_in(
            crate::memory_reflect::signal_prompt(facts, observations),
            crate::memory_reflect::observation_line(observations[i]),
        ),
{
    reveal_strlit("{EXISTING_OBSERVATIONS}");
    let lines = crate::order::at_most(observations, 15).map_values(
        |r: ReflectionView| crate::memory_reflect::observation_line(r),
    );
    let by = crate::text::joined(lines, "\n"@);
    crate::text_laws::law_replaced_stands(template, "{EXISTING_OBSERVATIONS}"@, by);
    crate::text_laws::law_joined_holds_parts(lines, "\n"@, i);
    lemma_within(crate::memory_reflect::signal_prompt(facts, observations), by, lines[i]);
}

} // verus!
