//! What the memory promises: what is read from it and in which order, what is taken in, and
//! what the conversation shows.

use crate::json::JsonView;
use crate::memory::{
    conversation, conversation_from, fact_in, facts_in, has_fact_text, importance_of,
    items_or_none, lemma_filter_contains, marked, seed_of, turn_line, FactView, StoreView,
};
use crate::memory_extract::{offer_in, offers_in};
use crate::order::text_before;
use crate::text::{byte_size, trimmed};
use vstd::prelude::*;

verus! {

// ---------------------------------------------------------------------------
// Reading facts
// ---------------------------------------------------------------------------

/// A flag of a record: missing, it is down.
pub open spec fn flag_of(v: JsonView, key: Seq<char>) -> Option<bool> {
    match v.get(key) {
        None => Some(false),
        Some(JsonView::Bool(b)) => Some(b),
        Some(_) => None,
    }
}

/// A record stores a fact if and only if its texts are texts, its importance is an integer
/// that is not too great, and its flags are flags where it has them; the fact is what they
/// say.
pub proof fn law_fact_read(v: JsonView, f: FactView)
    requires
        v is Record,
    ensures
        fact_in(v) == Some(f) <==> {
            &&& v.text_at("id"@) == Some(f.id)
            &&& v.text_at("text"@) == Some(f.text)
            &&& v.integer_at("importance"@) == Some(f.importance as i64)
            &&& v.text_at("entity"@) == Some(f.entity)
            &&& v.text_at("created_at"@) == Some(f.created_at)
            &&& flag_of(v, "absorbed"@) == Some(f.absorbed)
            &&& flag_of(v, "signals_checked"@) == Some(f.signals_checked)
        },
{
}

/// The facts that are read are those that the items store, one for each.
pub proof fn law_facts_read(items: Seq<JsonView>, v: JsonView)
    ensures
        facts_in(Seq::empty()) == Seq::<FactView>::empty(),
        fact_in(v) is Some ==> facts_in(items.push(v)) == facts_in(items).push(fact_in(v)->0),
        fact_in(v) is None ==> facts_in(items.push(v)) == facts_in(items),
{
    assert(items.push(v).drop_last() =~= items);
}

proof fn lemma_facts_in(items: Seq<JsonView>, f: FactView)
    ensures
        facts_in(items).contains(f) <==> exists|i: int|
            0 <= i < items.len() && fact_in(#[trigger] items[i]) == Some(f),
    decreases items.len(),
{
    if items.len() > 0 {
        let rest = items.drop_last();
        let v = items.last();
        lemma_facts_in(rest, f);
        if fact_in(v) is Some {
            crate::order::lemma_push_contains(facts_in(rest), fact_in(v)->0, f);
        }
        if facts_in(items).contains(f) {
            if facts_in(rest).contains(f) {
                let i = choose|i: int|
                    0 <= i < rest.len() && fact_in(#[trigger] rest[i]) == Some(f);
                assert(fact_in(items[i]) == Some(f));
            } else {
                assert(fact_in(items[items.len() - 1]) == Some(f));
            }
        }
        if exists|i: int| 0 <= i < items.len() && fact_in(#[trigger] items[i]) == Some(f) {
            let i = choose|i: int| 0 <= i < items.len() && fact_in(#[trigger] items[i]) == Some(f);
            if i < rest.len() {
                assert(fact_in(rest[i]) == Some(f));
            }
        }
    }
}

/// The facts of a store are those that its items store and no others; those that no
/// reflection has drawn on come first, then the more important, then the newer.
pub proof fn law_facts_of_store(s: StoreView, f: FactView, i: int, j: int)
    ensures
        s.all_facts().contains(f) <==> exists|k: int|
            0 <= k < items_or_none(s.facts).len() && fact_in(#[trigger] items_or_none(s.facts)[k])
                == Some(f),
        s.all_facts().len() == facts_in(items_or_none(s.facts)).len(),
        0 <= i < j < s.all_facts().len() ==> ({
            let (a, b) = (s.all_facts()[i], s.all_facts()[j]);
            &&& a.absorbed ==> b.absorbed
            &&& a.absorbed == b.absorbed ==> a.importance >= b.importance
            &&& a.absorbed == b.absorbed && a.importance == b.importance ==> !text_before(
                a.created_at,
                b.created_at,
            )
        }),
{
    let items = items_or_none(s.facts);
    let before = |a: FactView, b: FactView| crate::memory::fact_before(a, b);
    lemma_facts_in(items, f);
    crate::order::lemma_sort_contains(facts_in(items), before, f);
    crate::order::lemma_sort_keeps_items(facts_in(items), before);
    crate::memory::law_facts_in_order(s);
    if 0 <= i < j < s.all_facts().len() {
        let (a, b) = (s.all_facts()[i], s.all_facts()[j]);
        assert(!crate::memory::fact_before(b, a));
    }
}

/// The facts that no reflection has drawn on are those of the store that are not marked so
/// and are important enough; those still to be held against the reflections are the first of
/// them that were not held against any, as many as asked for.
pub proof fn law_open_facts(s: StoreView, min_importance: i32, max: int, f: FactView)
    requires
        0 <= max,
    ensures
        s.unabsorbed(min_importance).contains(f) <==> s.all_facts().contains(f) && !f.absorbed
            && f.importance >= min_importance,
        s.pending_signals(min_importance, max).len() <= max,
        s.pending_signals(min_importance, max).contains(f) ==> s.all_facts().contains(f)
            && !f.absorbed && !f.signals_checked && f.importance >= min_importance,
        s.all_facts().contains(f) && !f.absorbed && !f.signals_checked && f.importance
            >= min_importance ==> s.pending_signals(min_importance, max).contains(f)
            || s.pending_signals(min_importance, max).len() == max,
        s.pending_signals(min_importance, max).is_prefix_of(
            s.unabsorbed(min_importance).filter(|f: FactView| !f.signals_checked),
        ),
{
    let all = s.all_facts();
    let free = |f: FactView| !f.absorbed && f.importance >= min_importance;
    let open = |f: FactView| !f.absorbed && !f.signals_checked && f.importance >= min_importance;
    let picked = all.filter(open);
    let r = s.pending_signals(min_importance, max);
    crate::memory::law_pending_facts_are_unchecked(s, min_importance, max);
    if s.unabsorbed(min_importance).contains(f) {
        lemma_filter_contains(all, free, f);
    }
    if all.contains(f) {
        let k = choose|k: int| 0 <= k < all.len() && all[k] == f;
        if free(f) {
            all.lemma_filter_contains(free, k);
        }
        if open(f) {
            all.lemma_filter_contains(open, k);
            let m = choose|m: int| 0 <= m < picked.len() && picked[m] == f;
            if m < r.len() {
                assert(r[m] == f);
            }
        }
    }
    if r.contains(f) {
        let m = choose|m: int| 0 <= m < r.len() && r[m] == f;
        assert(picked[m] == f);
        assert(picked.contains(f));
        lemma_filter_contains(all, open, f);
    }
}

/// A mark leaves every document alone whose id is not among those marked, and changes no
/// field but its own in the others.
pub proof fn law_mark_leaves_others(
    items: Seq<JsonView>,
    ids: Seq<Seq<char>>,
    key: Seq<char>,
    i: int,
    other: Seq<char>,
)
    requires
        0 <= i < items.len(),
        other != key,
    ensures
        marked(items, ids, key).len() == items.len(),
        items[i].text_at("id"@) is None || !ids.contains(items[i].text_at("id"@)->0) ==> marked(
            items,
            ids,
            key,
        )[i] == items[i],
        marked(items, ids, key)[i].get(other) == items[i].get(other),
        items[i] is Record && items[i].text_at("id"@) is Some && ids.contains(
            items[i].text_at("id"@)->0,
        ) ==> marked(items, ids, key)[i].get(key) == Some(JsonView::Bool(true)),
{
    if items[i] is Record {
        crate::json::lemma_put_field(items[i]->Record_0, key, JsonView::Bool(true), other);
        crate::json::lemma_put_field(items[i]->Record_0, key, JsonView::Bool(true), key);
    }
}

// ---------------------------------------------------------------------------
// Taking in facts
// ---------------------------------------------------------------------------

/// An importance is kept between one and ten.
pub proof fn law_importance(n: i32)
    ensures
        1 <= importance_of(n) <= 10,
        1 <= n <= 10 ==> importance_of(n) == n,
        n < 1 ==> importance_of(n) == 1,
        n > 10 ==> importance_of(n) == 10,
{
}

/// A fact is taken in if and only if there is something but white space in its text and no
/// stored item has that text; it comes behind the others, which stay as they are. Nothing
/// else of the store changes.
pub proof fn law_fact_taken_in(
    s: StoreView,
    text: Seq<char>,
    importance: i32,
    entity: Seq<char>,
    compact: Seq<char>,
    tee: Seq<char>,
    items: Seq<JsonView>,
)
    requires
        s.facts.items() == Some(items),
    ensures
        ({
            let new = trimmed(text).len() > 0 && forall|i: int|
                0 <= i < items.len() ==> (#[trigger] items[i]).text_at("text"@) != Some(
                    trimmed(text),
                );
            let t = s.with_fact(text, importance, entity, compact, tee);
            &&& s.fact_accepted(text) == Ok::<bool, Seq<char>>(new)
            &&& !new ==> t == s
            &&& new ==> t.facts.items() is Some && t.facts.items()->0.len() == items.len() + 1
                && t.facts.items()->0.drop_last() == items && (fact_in(t.facts.items()->0.last())
                matches Some(f) && f.text == trimmed(text) && f.entity == entity && f.created_at
                == tee && f.importance == importance_of(importance) && !f.absorbed
                && !f.signals_checked)
            &&& t.recent == s.recent && t.persona == s.persona && t.reflections == s.reflections
                && t.dir == s.dir
        }),
{
    let t = s.with_fact(text, importance, entity, compact, tee);
    if has_fact_text(items, trimmed(text)) {
        let i = choose|i: int|
            0 <= i < items.len() && (#[trigger] items[i]).text_at("text"@) == Some(trimmed(text));
        assert(items[i].text_at("text"@) == Some(trimmed(text)));
    } else if trimmed(text).len() > 0 {
        let all = t.facts.items()->0;
        assert(all.drop_last() =~= items);
        crate::memory::lemma_new_fact(trimmed(text), importance, entity, compact, tee);
    }
}

/// Several facts are taken in one after the other.
pub proof fn law_facts_taken_in(
    s: StoreView,
    facts: Seq<(Seq<char>, i32, Seq<char>)>,
    f: (Seq<char>, i32, Seq<char>),
    compact: Seq<char>,
    tee: Seq<char>,
)
    ensures
        s.with_facts(Seq::empty(), compact, tee) == s,
        s.with_facts(facts.push(f), compact, tee) == s.with_facts(facts, compact, tee).with_fact(
            f.0,
            f.1,
            f.2,
            compact,
            tee,
        ),
        s.facts_accepted(Seq::empty(), compact, tee) == 0,
        s.with_facts(facts, compact, tee).fact_accepted(f.0) == Ok::<bool, Seq<char>>(true)
            ==> s.facts_accepted(facts.push(f), compact, tee) == s.facts_accepted(
            facts,
            compact,
            tee,
        ) + 1,
        s.with_facts(facts, compact, tee).fact_accepted(f.0) != Ok::<bool, Seq<char>>(true)
            ==> s.facts_accepted(facts.push(f), compact, tee) == s.facts_accepted(
            facts,
            compact,
            tee,
        ),
{
    assert(facts.push(f).drop_last() =~= facts);
}

/// The first evidence of a reflection grows with the importance of its facts from seven to
/// ten, by a fifth each, and is none below and above.
pub proof fn law_first_evidence(n: i32)
    ensures
        7 <= n <= 10 ==> seed_of(n) == (n - 6) * 200_000,
        n < 7 || n > 10 ==> seed_of(n) == 0,
{
}

// ---------------------------------------------------------------------------
// Facts out of an answer
// ---------------------------------------------------------------------------

/// An item of an answer offers a fact if and only if its text, without white space round it,
/// has four bytes or more. The offer carries that text; it carries exactly the entity of the
/// item where this is the user, the companion or their relationship, and the user where it is
/// another or missing; and the importance of the item, or five where it is missing.
pub proof fn law_offer(item: JsonView)
    ensures
        ({
            let text = match item.text_at("text"@) {
                Some(t) => trimmed(t),
                None => Seq::<char>::empty(),
            };
            &&& offer_in(item) is Some <==> byte_size(text) >= 4
            &&& offer_in(item) matches Some(f) ==> {
                &&& f.0 == text
                &&& item.text_at("entity"@) == Some("master"@) ==> f.2 == "master"@
                &&& item.text_at("entity"@) == Some("neko"@) ==> f.2 == "neko"@
                &&& item.text_at("entity"@) == Some("relationship"@) ==> f.2 == "relationship"@
                &&& item.text_at("entity"@) is None ==> f.2 == "master"@
                &&& (item.text_at("entity"@) matches Some(e) && e != "master"@ && e != "neko"@ && e
                    != "relationship"@) ==> f.2 == "master"@
                &&& item.integer_at("importance"@) is None ==> f.1 == 5
                &&& (item.integer_at("importance"@) matches Some(n) && i32::MIN <= n <= i32::MAX)
                    ==> f.1 == item.integer_at("importance"@)->0
            }
        }),
{
    reveal_strlit("");
    assert(trimmed(""@) =~= Seq::<char>::empty());
    assert(""@ =~= Seq::<char>::empty());
    lemma_low_bits(item);
}

proof fn lemma_low_bits(item: JsonView)
    ensures
        item.integer_at("importance"@) is Some && i32::MIN <= item.integer_at("importance"@)->0
            <= i32::MAX ==> crate::memory_extract::low_bits(
            item.integer_at("importance"@)->0 as int,
        ) == item.integer_at("importance"@)->0,
{
}

/// What is said of the companion is stored as said of the companion: a fact that an answer
/// offers and that is new comes into the store with the entity of the item.
pub proof fn law_offer_is_stored(
    s: StoreView,
    items: Seq<JsonView>,
    item: JsonView,
    entity: Seq<char>,
    compact: Seq<char>,
    tee: Seq<char>,
)
    requires
        s.facts.items() == Some(items),
        item.text_at("entity"@) == Some(entity),
        entity == "master"@ || entity == "neko"@ || entity == "relationship"@,
        item.text_at("text"@) is Some,
        byte_size(trimmed(item.text_at("text"@)->0)) >= 4,
        forall|i: int|
            0 <= i < items.len() ==> (#[trigger] items[i]).text_at("text"@) != Some(
                trimmed(item.text_at("text"@)->0),
            ),
    ensures
        offers_in(seq![item]).len() == 1,
        exists|f: FactView| #[trigger]
            s.with_facts(offers_in(seq![item]), compact, tee).all_facts().contains(f) && f.text
                == trimmed(item.text_at("text"@)->0) && f.entity == entity && f.created_at == tee,
{
    let text = trimmed(item.text_at("text"@)->0);
    law_offer(item);
    let offer = offer_in(item)->0;
    law_offers(Seq::empty(), item);
    assert(Seq::<JsonView>::empty().push(item) =~= seq![item]);
    let offers = offers_in(seq![item]);
    assert(offers =~= seq![offer]);
    assert(Seq::<(Seq<char>, i32, Seq<char>)>::empty().push(offer) =~= offers);
    law_facts_taken_in(s, Seq::empty(), offer, compact, tee);
    crate::text::lemma_trimmed(item.text_at("text"@)->0);
    lemma_trimmed_twice(item.text_at("text"@)->0);
    assert(text.len() > 0) by {
        if text.len() == 0 {
            assert(text =~= Seq::<char>::empty());
            reveal_with_fuel(vstd::utf8::encode_utf8, 2);
        }
    }
    law_fact_taken_in(s, offer.0, offer.1, offer.2, compact, tee, items);
    let t = s.with_facts(offers, compact, tee);
    let stored = t.facts.items()->0;
    let f = fact_in(stored.last())->0;
    law_facts_of_store(t, f, 0, 0);
    assert(fact_in(items_or_none(t.facts)[stored.len() - 1]) == Some(f));
    assert(t.all_facts().contains(f));
}

proof fn lemma_trimmed_twice(s: Seq<char>)
    ensures
        trimmed(trimmed(s)) == trimmed(s),
{
    crate::text::lemma_trimmed(s);
    let t = trimmed(s);
    crate::text_laws::law_trimmed(Seq::empty(), t, Seq::empty());
    assert(Seq::<char>::empty() + t + Seq::<char>::empty() =~= t);
}

/// The offers of an answer are those of its items, in their order.
pub proof fn law_offers(items: Seq<JsonView>, item: JsonView)
    ensures
        offers_in(Seq::empty()) == Seq::<(Seq<char>, i32, Seq<char>)>::empty(),
        offer_in(item) is Some ==> offers_in(items.push(item)) == offers_in(items).push(
            offer_in(item)->0,
        ),
        offer_in(item) is None ==> offers_in(items.push(item)) == offers_in(items),
{
    assert(items.push(item).drop_last() =~= items);
}

// ---------------------------------------------------------------------------
// The conversation
// ---------------------------------------------------------------------------

/// A turn comes behind the others, of which the last nineteen stay, in their order; nothing
/// else of the store changes.
pub proof fn law_turn_kept(
    s: StoreView,
    role: Seq<char>,
    content: Seq<char>,
    ts: Seq<char>,
    items: Seq<JsonView>,
)
    requires
        s.recent.items() == Some(items),
    ensures
        ({
            let t = s.with_turn(role, content, ts);
            let r = items_or_none(t.recent);
            &&& r.len() > 0
            &&& r.last().text_at("role"@) == Some(role)
            &&& r.last().text_at("content"@) == Some(content)
            &&& r.last().text_at("ts"@) == Some(ts)
            &&& items.len() < 20 ==> r.drop_last() == items
            &&& items.len() >= 20 ==> r.drop_last() == items.skip(items.len() - 19)
            &&& t.facts == s.facts && t.persona == s.persona && t.reflections == s.reflections
        }),
{
    let r = items_or_none(s.with_turn(role, content, ts).recent);
    let v = crate::memory::turn(role, content, ts);
    reveal_strlit("role");
    reveal_strlit("content");
    reveal_strlit("ts");
    assert("role"@.len() == 4 && "content"@.len() == 7 && "ts"@.len() == 2);
    reveal_with_fuel(crate::json::find_field, 4);
    assert(r.last() == v);
    let fields = v->Record_0;
    assert(fields.drop_first()[0] == fields[1]);
    assert(fields.drop_first().drop_first()[0] == fields[2]);
    if items.len() < 20 {
        assert(r.drop_last() =~= items);
    } else {
        assert(r.drop_last() =~= items.skip(items.len() - 19));
    }
}

/// The lines of the first turns, one behind the other.
pub open spec fn turn_lines(turns: Seq<JsonView>, n: int) -> Seq<char>
    decreases n,
{
    if n <= 0 {
        Seq::empty()
    } else {
        turn_lines(turns, n - 1) + turn_line(turns[n - 1])
    }
}

/// A turn is shown by who spoke, the user or the companion, and what was said, on a line of
/// its own.
pub proof fn law_turn_line(m: JsonView, content: Seq<char>)
    requires
        m.text_at("content"@) == Some(content),
    ensures
        m.text_at("role"@) == Some("user"@) ==> turn_line(m) == "主人"@ + ": "@ + content + "\n"@,
        m.text_at("role"@) != Some("user"@) ==> turn_line(m) == "优香"@ + ": "@ + content + "\n"@,
{
    reveal_strlit("");
    reveal_strlit("user");
    assert(""@.len() == 0 && "user"@.len() == 4);
}

proof fn lemma_lines_from(turns: Seq<JsonView>, n: int)
    requires
        0 < n <= turns.len(),
    ensures
        turn_lines(turns, n) == turn_line(turns[0]) + turn_lines(turns.drop_first(), n - 1),
    decreases n,
{
    if n > 1 {
        lemma_lines_from(turns, n - 1);
        assert(turns.drop_first()[n - 2] == turns[n - 1]);
        assert(turn_line(turns[0]) + (turn_lines(turns.drop_first(), n - 2) + turn_line(
            turns[n - 1],
        )) =~= turn_line(turns[0]) + turn_lines(turns.drop_first(), n - 2) + turn_line(
            turns[n - 1],
        ));
    } else {
        reveal_with_fuel(turn_lines, 2);
        assert(turn_lines(turns, 1) =~= turn_line(turns[0]));
        assert(turn_line(turns[0]) + turn_lines(turns.drop_first(), 0) =~= turn_line(turns[0]));
    }
}

proof fn lemma_conversation(turns: Seq<JsonView>, max: int, out: Seq<char>) -> (n: int)
    ensures
        0 <= n <= turns.len(),
        conversation_from(turns, max, out) == out + turn_lines(turns, n),
        n < turns.len() ==> byte_size(out + turn_lines(turns, n)) + byte_size(turn_line(turns[n]))
            > max,
    decreases turns.len(),
{
    if turns.len() == 0 || byte_size(out) + byte_size(turn_line(turns[0])) > max {
        assert(out + turn_lines(turns, 0) =~= out);
        0
    } else {
        let line = turn_line(turns[0]);
        let rest = turns.drop_first();
        let n = lemma_conversation(rest, max, out + line);
        lemma_lines_from(turns, n + 1);
        assert(out + line + turn_lines(rest, n) =~= out + turn_lines(turns, n + 1));
        if n < rest.len() {
            assert(rest[n] == turns[n + 1]);
        }
        n + 1
    }
}

/// The conversation is told by the lines of its first turns, as many as fit into the bytes:
/// all, or so many that the next one does not fit any more.
pub proof fn law_conversation(turns: Seq<JsonView>, max: int)
    ensures
        exists|n: int|
            0 <= n <= turns.len() && conversation(turns, max) == #[trigger] turn_lines(turns, n)
                && (n < turns.len() ==> byte_size(turn_lines(turns, n)) + byte_size(
                turn_line(turns[n]),
            ) > max),
{
    let n = lemma_conversation(turns, max, Seq::empty());
    assert(Seq::<char>::empty() + turn_lines(turns, n) =~= turn_lines(turns, n));
    assert(conversation(turns, max) == turn_lines(turns, n));
}

// ---------------------------------------------------------------------------
// Personas
// ---------------------------------------------------------------------------

/// What is said of an entity comes behind what is known of it, unless it is known; the other
/// entities and the rest of the store stay as they are.
pub proof fn law_persona(
    s: StoreView,
    entity: Seq<char>,
    text: Seq<char>,
    ts: Seq<char>,
    section: Seq<JsonView>,
    other: Seq<char>,
)
    requires
        s.persona.items_at(entity) == Some(section),
        other != entity,
    ensures
        ({
            let known = exists|i: int|
                0 <= i < section.len() && (#[trigger] section[i]).text_at("text"@) == Some(text);
            let t = s.with_persona(entity, text, ts);
            &&& s.persona_accepted(entity, text) == Ok::<bool, Seq<char>>(!known)
            &&& known ==> t == s
            &&& !known ==> t.persona.items_at(entity) is Some && t.persona.items_at(
                entity,
            )->0.drop_last() == section && t.persona.items_at(entity)->0.len() == section.len() + 1
                && t.persona.items_at(entity)->0.last().text_at("text"@) == Some(text)
            &&& t.persona.get(other) == s.persona.get(other)
            &&& t.facts == s.facts && t.recent == s.recent && t.reflections == s.reflections
        }),
{
    let t = s.with_persona(entity, text, ts);
    let entry = crate::memory::persona_entry(text, ts);
    let all = JsonView::List(section.push(entry));
    assert(s.persona is Record);
    crate::json::lemma_put_field(s.persona->Record_0, entity, all, entity);
    crate::json::lemma_put_field(s.persona->Record_0, entity, all, other);
    reveal_with_fuel(crate::json::find_field, 2);
    assert(section.push(entry).drop_last() =~= section);
}

// ---------------------------------------------------------------------------
// The store
// ---------------------------------------------------------------------------

/// What is stored is read where it is a document; where there is nothing, or no document,
/// the memory starts anew.
pub proof fn law_stored(content: Seq<char>, default: JsonView)
    ensures
        crate::memory::stored_or(None, default) == default,
        crate::json::json_read(content) matches Ok(v) ==> crate::memory::stored_or(
            Some(content),
            default,
        ) == v,
        crate::json::json_read(content) is Err ==> crate::memory::stored_or(Some(content), default)
            == default,
{
}

/// A memory that starts anew holds nothing, but has room for facts, turns and the three
/// personas.
pub proof fn law_blank_store(dir: Seq<char>)
    ensures
        ({
            let s = StoreView::blank(dir);
            &&& s.facts.items() == Some(Seq::<JsonView>::empty())
            &&& s.recent.items() == Some(Seq::<JsonView>::empty())
            &&& s.persona.items_at("master"@) == Some(Seq::<JsonView>::empty())
            &&& s.persona.items_at("neko"@) == Some(Seq::<JsonView>::empty())
            &&& s.persona.items_at("relationship"@) == Some(Seq::<JsonView>::empty())
            &&& s.reflections.len() == 0
            &&& s.all_facts().len() == 0
        }),
{
    reveal_strlit("master");
    reveal_strlit("neko");
    reveal_strlit("relationship");
    assert("master"@.len() == 6 && "neko"@.len() == 4 && "relationship"@.len() == 12);
    let s = StoreView::blank(dir);
    let fields = s.persona->Record_0;
    crate::chat_laws::law_field(fields, "master"@, 0);
    crate::chat_laws::law_field(fields, "neko"@, 1);
    crate::chat_laws::law_field(fields, "relationship"@, 2);
    let before = |a: FactView, b: FactView| crate::memory::fact_before(a, b);
    crate::order::lemma_sort_keeps_items(facts_in(Seq::empty()), before);
}

/// An answer offers the facts of the list that it is, or of the one under `facts`; an answer
/// that is neither, or no document, offers none, and it is said what is wrong.
pub proof fn law_answer_offers(content: Seq<char>, items: Seq<JsonView>)
    ensures
        ({
            let read = crate::json::json_read(crate::chat::unfenced_lines(content));
            let r = crate::memory_extract::offers_of(content);
            &&& read == Ok::<JsonView, Seq<char>>(JsonView::List(items)) ==> r == Ok::<
                Seq<(Seq<char>, i32, Seq<char>)>,
                Seq<char>,
            >(offers_in(items))
            &&& read matches Ok(v) ==> (!(v is List) && v.get("facts"@) == Some(
                JsonView::List(items),
            ) ==> r == Ok::<Seq<(Seq<char>, i32, Seq<char>)>, Seq<char>>(offers_in(items)))
            &&& read matches Ok(v) ==> (!(v is List) && v.items_at("facts"@) is None ==> r is Err)
            &&& read is Err ==> r is Err
        }),
{
}

/// What is said of an answer that offers nothing: the error of one that is no document, that
/// one is no list and has none, or that the one that it has is none.
pub proof fn law_broken_offers(content: Seq<char>, v: JsonView)
    ensures
        crate::json::json_read(crate::chat::unfenced_lines(content)) matches Err(e)
            ==> crate::memory_extract::offers_of(content) == Err::<
            Seq<(Seq<char>, i32, Seq<char>)>,
            Seq<char>,
        >(
            "提取结果 JSON 解析失败: "@ + e + "（原始: "@ + crate::text::head(content, 200) + "）"@,
        ),
        !(v is List) && v.get("facts"@) is None ==> crate::memory_extract::answer_items(v, content)
            == Err::<Seq<JsonView>, Seq<char>>(
            "提取结果不是数组且无 facts 字段（原始: "@ + crate::text::head(content, 200) + "）"@,
        ),
        !(v is List) && v.get("facts"@) is Some && v.items_at("facts"@) is None
            ==> crate::memory_extract::answer_items(v, content) == Err::<Seq<JsonView>, Seq<char>>(
            "提取结果不是数组"@,
        ),
{
}

/// The question for facts is asked with the names and the conversation in their places.
pub proof fn law_question_for_facts(
    conversation: Seq<char>,
    companion: Seq<char>,
    user: Seq<char>,
    template: Seq<char>,
)
    requires
        template == crate::text::replaced(
            crate::text::replaced(
                crate::memory_prompts::FACT_EXTRACTION_PROMPT@,
                "{LANLAN_NAME}"@,
                companion,
            ),
            "{MASTER_NAME}"@,
            user,
        ),
        crate::text_laws::stands_in(template, "{CONVERSATION}"@),
    ensures
        crate::text_laws::stands_in(
            crate::memory_extract::extraction_prompt(conversation, companion, user),
            conversation,
        ),
{
    reveal_strlit("{CONVERSATION}");
    crate::text_laws::law_replaced_stands(template, "{CONVERSATION}"@, conversation);
}

/// What is said where the memory cannot be written: that the facts, the turns or a section
/// are no list.
pub proof fn law_broken_memory(s: StoreView, text: Seq<char>, entity: Seq<char>)
    ensures
        s.facts.items() is None && trimmed(text).len() > 0 ==> s.fact_accepted(text) == Err::<
            bool,
            Seq<char>,
        >("facts.json 不是数组"@),
        trimmed(text).len() == 0 ==> s.fact_accepted(text) == Ok::<bool, Seq<char>>(false),
        s.facts.items() is None ==> s.facts_writable() == Err::<(), Seq<char>>(
            "facts.json 不是数组"@,
        ),
        s.facts.items() is Some ==> s.facts_writable() == Ok::<(), Seq<char>>(()),
        s.recent.items() is None ==> s.recent_writable() == Err::<(), Seq<char>>(
            "recent.json 不是数组"@,
        ),
        s.recent.items() is Some ==> s.recent_writable() == Ok::<(), Seq<char>>(()),
        s.persona.items_at(entity) is None ==> s.persona_accepted(entity, text) == Err::<
            bool,
            Seq<char>,
        >("persona section 不是数组"@),
{
}

/// The id of a fact tells when it was stored and begins to tell its text.
pub proof fn law_fact_id(text: Seq<char>, compact: Seq<char>)
    ensures
        crate::memory::fact_id(text, compact) == "fact_"@ + compact + "_"@ + crate::text::head(
            crate::text::decimal(crate::memory::text_hash(text) as int),
            8,
        ),
{
}

} // verus!
