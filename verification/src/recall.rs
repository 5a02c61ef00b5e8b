//! What is drawn from the memory: the context for a prompt, and the memories that
//! fit a query.

use crate::clock::{days_from, local_now, read_wall, wall_days, wall_read, Wall, TEE_FORMAT};
use crate::json::{json_views, Json, JsonView};
use crate::memory::{
    fact_views, facts_by_weight, reflection_views, sort_by_weight, Fact, FactView, MemoryStore,
    Reflection, ReflectionView, StoreView,
};
use crate::memory_prompts::{ago, entity_label, label_of, time_since_label};
use crate::order::{at_most, select, shorten, sorted_by, stable_sort};
use crate::proactive::{dice, similarity};
use crate::text::{
    ascii_alphanumeric, byte_len, byte_size, chars_of, contains, decimal, decimal_u64, has_text,
    is_ascii_alphanumeric, is_empty, join, joined, lowercase_of, replace, replaced, same_text,
    string_between, views,
};
use vstd::prelude::*;

verus! {

// ---------------------------------------------------------------------------
// Texts that say the same
// ---------------------------------------------------------------------------

/// Characters that carry little meaning of their own.
pub open spec fn fillers() -> Seq<char> {
    seq![
        '的', '了', '在', '是', '一', '下', '和', '与', '及', '就', '都', '还', '很', '也',
        '这', '那', '被', '把', '为',
    ]
}

/// A text without the word for a name, which says no more than the name itself, and
/// without the fillers.
pub open spec fn core_of(s: Seq<char>) -> Seq<char> {
    replaced(s, "名字"@, ""@).filter(|c: char| !fillers().contains(c))
}

/// Whether two texts say the same: the core of the one, if it has four bytes or
/// more, stands in the core of the other, or they are similar to 85 hundredths. So
/// "主人叫小李" says the same as "主人的名字叫小李", but not as "主人叫小明".
pub open spec fn says_same(a: Seq<char>, b: Seq<char>) -> bool {
    ||| byte_size(core_of(a)) >= 4 && has_text(core_of(b), core_of(a))
    ||| byte_size(core_of(b)) >= 4 && has_text(core_of(a), core_of(b))
    ||| 100 * dice(a, b).0 >= 85 * dice(a, b).1
}

fn core_text(s: &str) -> (r: String)
    ensures
        r@ == core_of(s@),
{
    proof {
        reveal_strlit("名字");
    }
    let told = replace(s, "名字", "");
    let cs = chars_of(told.as_str());
    let skip: Vec<char> = vec![
        '的', '了', '在', '是', '一', '下', '和', '与', '及', '就', '都', '还', '很', '也',
        '这', '那', '被', '把', '为',
    ];
    let ghost p = |c: char| !fillers().contains(c);
    let mut out = String::new();
    let mut i: usize = 0;
    proof {
        assert(skip@ =~= fillers());
        reveal(Seq::filter);
        assert(out@ =~= cs@.take(0).filter(p));
    }
    while i < cs.len()
        invariant
            i <= cs.len(),
            skip@ == fillers(),
            p == (|c: char| !fillers().contains(c)),
            out@ == cs@.take(i as int).filter(p),
        decreases cs.len() - i,
    {
        proof {
            reveal(Seq::filter);
            assert(cs@.take(i + 1).drop_last() =~= cs@.take(i as int));
            assert(cs@.take(i + 1).last() == cs@[i as int]);
        }
        if !crate::text::among(cs[i], skip.as_slice()) {
            out.push(cs[i]);
        }
        i = i + 1;
    }
    proof {
        assert(cs@.take(i as int) =~= told@);
    }
    out
}

/// Whether two texts say the same.
pub fn similar_enough(a: &str, b: &str) -> (r: bool)
    ensures
        r == says_same(a@, b@),
{
    let ca = core_text(a);
    let cb = core_text(b);
    if byte_len(ca.as_str()) >= 4 && contains(cb.as_str(), ca.as_str()) {
        return true;
    }
    if byte_len(cb.as_str()) >= 4 && contains(ca.as_str(), cb.as_str()) {
        return true;
    }
    similarity(a, b).at_least(85)
}

/// The facts without those that say the same as one before them that is kept.
pub open spec fn distinct_facts(facts: Seq<FactView>) -> Seq<FactView>
    decreases facts.len(),
{
    if facts.len() == 0 {
        Seq::empty()
    } else {
        let kept = distinct_facts(facts.drop_last());
        let f = facts.last();
        if exists|i: int| 0 <= i < kept.len() && says_same((#[trigger] kept[i]).text, f.text) {
            kept
        } else {
            kept.push(f)
        }
    }
}

fn drop_same(facts: Vec<Fact>) -> (r: Vec<Fact>)
    ensures
        fact_views(r@) == distinct_facts(fact_views(facts@)),
{
    let ghost all = fact_views(facts@);
    let mut kept: Vec<Fact> = Vec::new();
    let mut i: usize = 0;
    proof {
        assert(fact_views(kept@) =~= distinct_facts(all.take(0)));
    }
    while i < facts.len()
        invariant
            i <= facts.len(),
            all == fact_views(facts@),
            fact_views(kept@) == distinct_facts(all.take(i as int)),
        decreases facts.len() - i,
    {
        let ghost before = fact_views(kept@);
        proof {
            assert(all.take(i + 1).drop_last() =~= all.take(i as int));
            assert(all.take(i + 1).last() == facts@[i as int]@);
        }
        let mut same: bool = false;
        let mut k: usize = 0;
        while k < kept.len() && !same
            invariant
                k <= kept.len(),
                i < facts.len(),
                before == fact_views(kept@),
                same == exists|m: int|
                    0 <= m < k && says_same((#[trigger] before[m]).text, facts@[i as int]@.text),
            decreases kept.len() - k,
        {
            proof {
                assert(before[k as int] == kept@[k as int]@);
            }
            if similar_enough(kept[k].text.as_str(), facts[i].text.as_str()) {
                same = true;
                assert(says_same(before[k as int].text, facts@[i as int]@.text));
            }
            k = k + 1;
        }
        if !same {
            let f = facts[i].copy();
            kept.push(f);
            proof {
                assert(fact_views(kept@) =~= before.push(f@));
            }
        }
        i = i + 1;
    }
    proof {
        assert(all.take(i as int) =~= all);
    }
    kept
}

/// No two facts that are kept say the same.
pub proof fn law_distinct_facts(facts: Seq<FactView>)
    ensures
        forall|i: int, j: int|
            0 <= i < j < distinct_facts(facts).len() ==> !says_same(
                (#[trigger] distinct_facts(facts)[i]).text,
                (#[trigger] distinct_facts(facts)[j]).text,
            ),
    decreases facts.len(),
{
    if facts.len() > 0 {
        law_distinct_facts(facts.drop_last());
        let kept = distinct_facts(facts.drop_last());
        let all = distinct_facts(facts);
        assert forall|i: int, j: int| 0 <= i < j < all.len() implies !says_same(
            (#[trigger] all[i]).text,
            (#[trigger] all[j]).text,
        ) by {
            assert(all[i] == kept[i]);
            if j < kept.len() {
                assert(all[j] == kept[j]);
            }
        }
    }
}

// ---------------------------------------------------------------------------
// The context for a prompt
// ---------------------------------------------------------------------------

/// The texts of the entries that have one.
pub open spec fn entry_texts(items: Seq<JsonView>) -> Seq<Seq<char>>
    decreases items.len(),
{
    if items.len() == 0 {
        Seq::empty()
    } else {
        let rest = entry_texts(items.drop_last());
        match items.last().text_at("text"@) {
            Some(t) => rest.push(t),
            None => rest,
        }
    }
}

/// `out` followed by an item for each text.
pub open spec fn with_items(out: Seq<char>, texts: Seq<Seq<char>>) -> Seq<char>
    decreases texts.len(),
{
    if texts.len() == 0 {
        out
    } else {
        with_items(out, texts.drop_last()) + "- "@ + texts.last() + "\n"@
    }
}

/// The section of a persona; nothing where there is no text.
pub open spec fn persona_section(persona: JsonView, entity: Seq<char>, label: Seq<char>) -> Seq<
    char,
> {
    match persona.items_at(entity) {
        Some(items) => if entry_texts(items).len() > 0 {
            with_items("【"@ + label + "】\n"@, entry_texts(items))
        } else {
            Seq::empty()
        },
        None => Seq::empty(),
    }
}

/// `out` with a section behind it, if both fit into `max` bytes.
pub open spec fn with_section(out: Seq<char>, section: Seq<char>, max: int) -> Seq<char> {
    if byte_size(out) + byte_size(section) <= max {
        out + section
    } else {
        out
    }
}

fn texts_of(items: &Vec<Json>) -> (r: Vec<String>)
    ensures
        views(r@) == entry_texts(json_views(items@)),
{
    let ghost all = json_views(items@);
    let mut out: Vec<String> = Vec::new();
    let mut i: usize = 0;
    proof {
        assert(views(out@) =~= entry_texts(all.take(0)));
    }
    while i < items.len()
        invariant
            i <= items.len(),
            all == json_views(items@),
            views(out@) == entry_texts(all.take(i as int)),
        decreases items.len() - i,
    {
        let ghost before = views(out@);
        proof {
            assert(all.take(i + 1).drop_last() =~= all.take(i as int));
            assert(all.take(i + 1).last() == items@[i as int]@);
        }
        if let Some(t) = items[i].text_at("text") {
            let t = t.to_string();
            out.push(t);
            proof {
                assert(views(out@) =~= before.push(t@));
            }
        }
        i = i + 1;
    }
    proof {
        assert(all.take(i as int) =~= all);
    }
    out
}

fn persona_text(persona: &Json, entity: &str, label: &str) -> (r: String)
    ensures
        r@ == persona_section(persona@, entity@, label@),
{
    let nothing = String::new();
    proof {
        assert(nothing@ =~= Seq::<char>::empty());
    }
    match persona.items_at(entity) {
        None => nothing,
        Some(items) => {
            let texts = texts_of(items);
            if texts.len() == 0 {
                return nothing;
            }
            let ghost all = views(texts@);
            let mut out = "【".to_string();
            out.append(label);
            out.append("】\n");
            let ghost title = out@;
            let mut i: usize = 0;
            while i < texts.len()
                invariant
                    i <= texts.len(),
                    all == views(texts@),
                    out@ == with_items(title, all.take(i as int)),
                decreases texts.len() - i,
            {
                proof {
                    assert(all.take(i + 1).drop_last() =~= all.take(i as int));
                    assert(all.take(i + 1).last() == texts@[i as int]@);
                }
                out.append("- ");
                out.append(texts[i].as_str());
                out.append("\n");
                i = i + 1;
            }
            proof {
                assert(all.take(i as int) =~= all);
            }
            out
        },
    }
}

/// Puts `section` behind `out`, if both fit into `max` bytes.
fn add_section(out: &mut String, section: &str, max: usize)
    ensures
        final(out)@ == with_section(old(out)@, section@, max as int),
{
    let x: usize = byte_len(out.as_str());
    let y: usize = byte_len(section);
    if x <= max && y <= max - x {
        out.append(section);
    }
}

/// The whole days since the time that a text spells; none where it spells none.
pub open spec fn age_days(written: Option<Wall>, now: Wall) -> int {
    match written {
        Some(t) => wall_days(t, now),
        None => 0,
    }
}

/// How long ago the time is that a text spells, in words.
pub open spec fn age_label(created_at: Seq<char>, now: Wall) -> Seq<char> {
    ago(age_days(wall_read(created_at, TEE_FORMAT@), now) * 1000)
}

fn age_text(created_at: &str, now: Wall) -> (r: String)
    ensures
        r@ == age_label(created_at@, now),
{
    let days: i64 = match read_wall(created_at, TEE_FORMAT) {
        Some(t) => days_from(t, now),
        None => 0,
    };
    time_since_label(days * 1000)
}

/// `out` followed by a line for each fact.
pub open spec fn with_facts_lines(out: Seq<char>, facts: Seq<FactView>, now: Wall) -> Seq<char>
    decreases facts.len(),
{
    if facts.len() == 0 {
        out
    } else {
        let f = facts.last();
        with_facts_lines(out, facts.drop_last(), now) + "- ["@ + label_of(f.entity) + "] "@ + f.text
            + " ("@ + age_label(f.created_at, now) + ")\n"@
    }
}

/// The facts that are put into a context: those of importance 5 or more by their
/// weight, without what says the same, as many as asked for and one at least.
pub open spec fn context_facts(facts: Seq<FactView>, max_facts: int) -> Seq<FactView> {
    at_most(
        distinct_facts(facts_by_weight(facts.filter(|f: FactView| f.importance >= 5))),
        if max_facts < 1 {
            1
        } else {
            max_facts
        },
    )
}

/// The section of the facts; nothing where there is none.
pub open spec fn facts_section(facts: Seq<FactView>, now: Wall) -> Seq<char> {
    if facts.len() == 0 {
        Seq::empty()
    } else {
        with_facts_lines("【记住的事】\n"@, facts, now)
    }
}

fn facts_text(facts: &Vec<Fact>, now: Wall) -> (r: String)
    ensures
        r@ == facts_section(fact_views(facts@), now),
{
    if facts.len() == 0 {
        let nothing = String::new();
        proof {
            assert(nothing@ =~= Seq::<char>::empty());
        }
        return nothing;
    }
    let ghost all = fact_views(facts@);
    let mut out = "【记住的事】\n".to_string();
    let ghost title = out@;
    let mut i: usize = 0;
    while i < facts.len()
        invariant
            i <= facts.len(),
            all == fact_views(facts@),
            out@ == with_facts_lines(title, all.take(i as int), now),
        decreases facts.len() - i,
    {
        proof {
            assert(all.take(i + 1).drop_last() =~= all.take(i as int));
            assert(all.take(i + 1).last() == facts@[i as int]@);
        }
        out.append("- [");
        out.append(entity_label(facts[i].entity.as_str()));
        out.append("] ");
        out.append(facts[i].text.as_str());
        out.append(" (");
        out.append(age_text(facts[i].created_at.as_str(), now).as_str());
        out.append(")\n");
        i = i + 1;
    }
    proof {
        assert(all.take(i as int) =~= all);
    }
    out
}

/// A reflection with the rank of its score.
pub struct Impression {
    pub entity: String,
    pub text: String,
    pub score: i64,
}

/// The contents of an impression.
pub struct ImpressionView {
    pub entity: Seq<char>,
    pub text: Seq<char>,
    pub score: i64,
}

impl View for Impression {
    type V = ImpressionView;

    open spec fn view(&self) -> ImpressionView {
        ImpressionView { entity: self.entity@, text: self.text@, score: self.score }
    }
}

/// The contents of each impression.
pub open spec fn impression_views(v: Seq<Impression>) -> Seq<ImpressionView> {
    v.map_values(|x: Impression| x@)
}

/// The first `n` reflections that are pending or confirmed, with their scores.
pub open spec fn impressions_upto(rs: Seq<ReflectionView>, scores: Seq<i64>, n: int) -> Seq<
    ImpressionView,
>
    decreases n,
{
    if n <= 0 {
        Seq::empty()
    } else {
        let rest = impressions_upto(rs, scores, n - 1);
        let r = rs[n - 1];
        if r.status == "confirmed"@ || r.status == "pending"@ {
            rest.push(ImpressionView { entity: r.entity, text: r.text, score: scores[n - 1] })
        } else {
            rest
        }
    }
}

/// The impressions that are put into a context: the five of the highest scores
/// above zero.
pub open spec fn context_impressions(rs: Seq<ReflectionView>, scores: Seq<i64>) -> Seq<
    ImpressionView,
> {
    at_most(
        sorted_by(
            impressions_upto(rs, scores, rs.len() as int),
            |a: ImpressionView, b: ImpressionView| a.score > b.score,
        ).filter(|x: ImpressionView| x.score > 0),
        5,
    )
}

/// `out` followed by a line for each impression.
pub open spec fn with_impressions(out: Seq<char>, xs: Seq<ImpressionView>) -> Seq<char>
    decreases xs.len(),
{
    if xs.len() == 0 {
        out
    } else {
        with_impressions(out, xs.drop_last()) + "- ["@ + label_of(xs.last().entity) + "] "@
            + xs.last().text + "\n"@
    }
}

/// The section of the impressions; nothing where there is none.
pub open spec fn impressions_section(xs: Seq<ImpressionView>) -> Seq<char> {
    if xs.len() == 0 {
        Seq::empty()
    } else {
        with_impressions("【关于你的印象】\n"@, xs)
    }
}

fn top_impressions(rs: &Vec<Reflection>, scores: &Vec<i64>) -> (r: Vec<Impression>)
    requires
        rs@.len() == scores@.len(),
    ensures
        impression_views(r@) == context_impressions(reflection_views(rs@), scores@),
{
    let ghost all = reflection_views(rs@);
    let mut out: Vec<Impression> = Vec::new();
    let mut i: usize = 0;
    proof {
        assert(impression_views(out@) =~= impressions_upto(all, scores@, 0));
    }
    while i < rs.len()
        invariant
            i <= rs.len(),
            rs@.len() == scores@.len(),
            all == reflection_views(rs@),
            impression_views(out@) == impressions_upto(all, scores@, i as int),
        decreases rs.len() - i,
    {
        let ghost before = impression_views(out@);
        proof {
            assert(all[i as int] == rs@[i as int]@);
        }
        if same_text(rs[i].status.as_str(), "confirmed") || same_text(
            rs[i].status.as_str(),
            "pending",
        ) {
            let x = Impression {
                entity: rs[i].entity.as_str().to_string(),
                text: rs[i].text.as_str().to_string(),
                score: scores[i],
            };
            out.push(x);
            proof {
                assert(impression_views(out@) =~= before.push(x@));
            }
        }
        i = i + 1;
    }
    let f = |a: &Impression, b: &Impression| -> (c: bool)
        ensures
            c == (a@.score > b@.score),
        { a.score > b.score };
    let sorted = stable_sort(
        out,
        f,
        Ghost(|a: ImpressionView, b: ImpressionView| a.score > b.score),
    );
    let g = |a: &Impression| -> (c: bool)
        ensures
            c == (a@.score > 0),
        { a.score > 0 };
    let good = select(sorted, g, Ghost(|x: ImpressionView| x.score > 0));
    let ghost said = impression_views(good@);
    let r = shorten(good, 5);
    proof {
        assert(impression_views(r@) =~= at_most(said, 5));
    }
    r
}

fn impressions_text(xs: &Vec<Impression>) -> (r: String)
    ensures
        r@ == impressions_section(impression_views(xs@)),
{
    if xs.len() == 0 {
        let nothing = String::new();
        proof {
            assert(nothing@ =~= Seq::<char>::empty());
        }
        return nothing;
    }
    let ghost all = impression_views(xs@);
    let mut out = "【关于你的印象】\n".to_string();
    let ghost title = out@;
    let mut i: usize = 0;
    while i < xs.len()
        invariant
            i <= xs.len(),
            all == impression_views(xs@),
            out@ == with_impressions(title, all.take(i as int)),
        decreases xs.len() - i,
    {
        proof {
            assert(all.take(i + 1).drop_last() =~= all.take(i as int));
            assert(all.take(i + 1).last() == xs@[i as int]@);
        }
        out.append("- [");
        out.append(entity_label(xs[i].entity.as_str()));
        out.append("] ");
        out.append(xs[i].text.as_str());
        out.append("\n");
        i = i + 1;
    }
    proof {
        assert(all.take(i as int) =~= all);
    }
    out
}

impl StoreView {
    /// What is remembered, for a prompt: the personas, the facts and the
    /// impressions, each section if it still fits into `max` bytes.
    pub open spec fn context(self, max_facts: int, max: int, scores: Seq<i64>, now: Wall) -> Seq<
        char,
    > {
        let a = with_section(
            Seq::empty(),
            persona_section(self.persona, "master"@, "关于主人"@),
            max,
        );
        let b = with_section(a, persona_section(self.persona, "neko"@, "关于优香"@), max);
        let c = with_section(
            b,
            persona_section(self.persona, "relationship"@, "关于我们的关系"@),
            max,
        );
        let d = with_section(
            c,
            facts_section(context_facts(self.all_facts(), max_facts), now),
            max,
        );
        with_section(
            d,
            impressions_section(context_impressions(self.reflections, scores)),
            max,
        )
    }
}

impl MemoryStore {
    /// What is remembered, for a prompt, as of now; by the ranks of the
    /// reflections' scores.
    pub fn render_memory_context(&self, max_facts: usize, max_chars: usize, scores: &Vec<i64>) -> (r:
        String)
        requires
            scores@.len() == self@.reflections.len(),
        ensures
            exists|now: Wall|
                r@ == #[trigger] self@.context(
                    max_facts as int,
                    max_chars as int,
                    scores@,
                    now,
                ),
    {
        self.render_memory_context_at(max_facts, max_chars, scores, local_now().wall)
    }

    /// What is remembered, for a prompt, as of `now`; by the ranks of the
    /// reflections' scores.
    pub fn render_memory_context_at(
        &self,
        max_facts: usize,
        max_chars: usize,
        scores: &Vec<i64>,
        now: Wall,
    ) -> (r: String)
        requires
            scores@.len() == self@.reflections.len(),
        ensures
            r@ == self@.context(max_facts as int, max_chars as int, scores@, now),
    {
        let mut out = String::new();
        proof {
            assert(out@ =~= Seq::<char>::empty());
        }
        let master = persona_text(self.get_persona(), "master", "关于主人");
        add_section(&mut out, master.as_str(), max_chars);
        let neko = persona_text(self.get_persona(), "neko", "关于优香");
        add_section(&mut out, neko.as_str(), max_chars);
        let both = persona_text(self.get_persona(), "relationship", "关于我们的关系");
        add_section(&mut out, both.as_str(), max_chars);

        let f = |a: &Fact| -> (c: bool)
            ensures
                c == (a@.importance >= 5),
            { a.importance >= 5 };
        let weighty = select(self.get_facts(), f, Ghost(|a: FactView| a.importance >= 5));
        let distinct = drop_same(sort_by_weight(weighty));
        let limit: usize = if max_facts < 1 {
            1
        } else {
            max_facts
        };
        let ghost said = fact_views(distinct@);
        let top = shorten(distinct, limit);
        proof {
            assert(fact_views(top@) =~= at_most(said, limit as int));
        }
        let facts = facts_text(&top, now);
        add_section(&mut out, facts.as_str(), max_chars);

        let best = top_impressions(self.reflections(), scores);
        let impressions = impressions_text(&best);
        add_section(&mut out, impressions.as_str(), max_chars);
        out
    }
}

/// A context never takes more than the bytes it was given.
pub proof fn law_context_bounded(s: StoreView, max_facts: int, max: int, scores: Seq<i64>, now: Wall)
    requires
        0 <= max,
    ensures
        byte_size(s.context(max_facts, max, scores, now)) <= max,
{
    lemma_empty_size();
    let a = persona_section(s.persona, "master"@, "关于主人"@);
    let b = persona_section(s.persona, "neko"@, "关于优香"@);
    let c = persona_section(s.persona, "relationship"@, "关于我们的关系"@);
    let d = facts_section(context_facts(s.all_facts(), max_facts), now);
    let e = impressions_section(context_impressions(s.reflections, scores));
    let o: Seq<char> = Seq::empty();
    lemma_section_bounded(o, a, max);
    lemma_section_bounded(with_section(o, a, max), b, max);
    lemma_section_bounded(with_section(with_section(o, a, max), b, max), c, max);
    lemma_section_bounded(
        with_section(with_section(with_section(o, a, max), b, max), c, max),
        d,
        max,
    );
    lemma_section_bounded(
        with_section(
            with_section(with_section(with_section(o, a, max), b, max), c, max),
            d,
            max,
        ),
        e,
        max,
    );
}

proof fn lemma_empty_size()
    ensures
        byte_size(Seq::empty()) == 0,
{
    reveal_with_fuel(vstd::utf8::encode_utf8, 2);
}

proof fn lemma_section_bounded(out: Seq<char>, section: Seq<char>, max: int)
    requires
        byte_size(out) <= max,
    ensures
        byte_size(with_section(out, section, max)) <= max,
{
    crate::memory::lemma_byte_size(out, section);
}

/// What is put into a context of the facts is among them and of importance 5 or more, drawn
/// on by a reflection or not; and it is something, where there is such a fact.
pub proof fn law_context_facts(facts: Seq<FactView>, max_facts: int)
    ensures
        forall|i: int|
            0 <= i < context_facts(facts, max_facts).len() ==> facts.contains(
                #[trigger] context_facts(facts, max_facts)[i],
            ) && context_facts(facts, max_facts)[i].importance >= 5,
        (exists|i: int| 0 <= i < facts.len() && (#[trigger] facts[i]).importance >= 5)
            ==> context_facts(facts, max_facts).len() > 0,
{
    let pick = |f: FactView| f.importance >= 5;
    let before = |a: FactView, b: FactView| crate::memory::weight_before(a, b);
    let picked = facts.filter(pick);
    let sorted = facts_by_weight(picked);
    let distinct = distinct_facts(sorted);
    lemma_distinct_facts(sorted);
    crate::order::lemma_sort_keeps_items(picked, before);
    assert forall|i: int| 0 <= i < context_facts(facts, max_facts).len() implies facts.contains(
        #[trigger] context_facts(facts, max_facts)[i],
    ) && context_facts(facts, max_facts)[i].importance >= 5 by {
        let f = distinct[i];
        assert(sorted.contains(f));
        crate::order::lemma_sort_contains(picked, before, f);
        crate::memory::lemma_filter_contains(facts, pick, f);
    }
    if exists|i: int| 0 <= i < facts.len() && (#[trigger] facts[i]).importance >= 5 {
        let i = choose|i: int| 0 <= i < facts.len() && (#[trigger] facts[i]).importance >= 5;
        lemma_filter_keeps(facts, pick, i);
    }
}

proof fn lemma_filter_keeps<T>(s: Seq<T>, pick: spec_fn(T) -> bool, i: int)
    requires
        0 <= i < s.len(),
        pick(s[i]),
    ensures
        s.filter(pick).len() > 0,
    decreases s.len(),
{
    reveal(Seq::filter);
    if i < s.len() - 1 {
        assert(s.drop_last()[i] == s[i]);
        lemma_filter_keeps(s.drop_last(), pick, i);
    }
}

proof fn lemma_distinct_facts(facts: Seq<FactView>)
    ensures
        facts.len() > 0 ==> distinct_facts(facts).len() > 0,
        forall|i: int|
            0 <= i < distinct_facts(facts).len() ==> facts.contains(
                #[trigger] distinct_facts(facts)[i],
            ),
    decreases facts.len(),
{
    if facts.len() > 0 {
        let rest = facts.drop_last();
        let kept = distinct_facts(rest);
        let all = distinct_facts(facts);
        lemma_distinct_facts(rest);
        assert forall|i: int| 0 <= i < all.len() implies facts.contains(#[trigger] all[i]) by {
            if i < kept.len() {
                assert(all[i] == kept[i]);
                let k = choose|k: int| 0 <= k < rest.len() && rest[k] == kept[i];
                assert(facts[k] == kept[i]);
            } else {
                assert(all[i] == facts[facts.len() - 1]);
            }
        }
    }
}

/// Saying the same does not depend on which text comes first.
pub proof fn law_says_same_symmetric(a: Seq<char>, b: Seq<char>)
    ensures
        says_same(a, b) == says_same(b, a),
{
    crate::proactive::law_similarity_symmetric(a, b);
}

// ---------------------------------------------------------------------------
// Words
// ---------------------------------------------------------------------------

/// The length of the longest prefix of characters in `p`.
pub open spec fn run_len(s: Seq<char>, p: spec_fn(char) -> bool) -> nat
    decreases s.len(),
{
    if s.len() > 0 && p(s[0]) {
        1 + run_len(s.drop_first(), p)
    } else {
        0
    }
}

/// A run is no longer than the text.
pub proof fn lemma_run_len(s: Seq<char>, p: spec_fn(char) -> bool)
    ensures
        run_len(s, p) <= s.len(),
        s.len() > 0 && p(s[0]) ==> run_len(s, p) > 0,
    decreases s.len(),
{
    if s.len() > 0 && p(s[0]) {
        lemma_run_len(s.drop_first(), p);
    }
}

/// Characters beyond ASCII.
pub open spec fn beyond_ascii(c: char) -> bool {
    c as u32 >= 128
}

/// The words in a run of characters without spaces between words: each pair of
/// neighbours, or the one character there is.
pub open spec fn pair_words(run: Seq<char>) -> Seq<Seq<char>> {
    if run.len() == 1 {
        seq![run]
    } else {
        Seq::new(
            if run.len() == 0 {
                0
            } else {
                (run.len() - 1) as nat
            },
            |i: int| seq![run[i], run[i + 1]],
        )
    }
}

/// The words of a text: each run of ASCII letters and digits, and the words in each
/// run of characters beyond ASCII.
pub open spec fn words_of(s: Seq<char>) -> Seq<Seq<char>>
    decreases s.len(),
    via words_decreases
{
    if s.len() == 0 {
        Seq::empty()
    } else if ascii_alphanumeric(s[0]) {
        let n = run_len(s, |c: char| ascii_alphanumeric(c)) as int;
        seq![s.take(n)] + words_of(s.skip(n))
    } else if beyond_ascii(s[0]) {
        let n = run_len(s, |c: char| beyond_ascii(c)) as int;
        pair_words(s.take(n)) + words_of(s.skip(n))
    } else {
        words_of(s.skip(1))
    }
}

#[via_fn]
proof fn words_decreases(s: Seq<char>) {
    lemma_run_len(s, |c: char| ascii_alphanumeric(c));
    lemma_run_len(s, |c: char| beyond_ascii(c));
}

fn push_pairs(words: &mut Vec<String>, cs: &[char], from: usize, to: usize)
    requires
        from < to <= cs@.len(),
    ensures
        views(final(words)@) == views(old(words)@) + pair_words(
            cs@.subrange(from as int, to as int),
        ),
{
    let ghost run = cs@.subrange(from as int, to as int);
    let ghost first = views(words@);
    if to - from == 1 {
        let w = string_between(cs, from, to);
        words.push(w);
        proof {
            assert(views(words@) =~= first + seq![run]);
        }
        return;
    }
    let ghost goal = pair_words(run);
    let mut i: usize = from;
    proof {
        assert(views(words@) =~= first + goal.take(0));
    }
    while i < to - 1
        invariant
            from <= i <= to - 1,
            from + 1 < to <= cs@.len(),
            run == cs@.subrange(from as int, to as int),
            goal == pair_words(run),
            views(words@) == first + goal.take(i - from),
        decreases to - i,
    {
        let ghost before = views(words@);
        let w = string_between(cs, i, i + 2);
        words.push(w);
        proof {
            assert(w@ =~= seq![run[i - from], run[i - from + 1]]);
            assert(goal[i - from] == w@);
            assert(goal.take(i - from + 1) =~= goal.take(i - from).push(w@));
            assert(views(words@) =~= before.push(w@));
            assert(views(words@) =~= first + goal.take(i - from + 1));
        }
        i = i + 1;
    }
    proof {
        assert(goal.take(to - 1 - from) =~= goal);
    }
}

/// The words of a text.
pub fn split_words(cs: &[char]) -> (r: Vec<String>)
    ensures
        views(r@) == words_of(cs@),
{
    let mut words: Vec<String> = Vec::new();
    let mut i: usize = 0;
    proof {
        assert(cs@.skip(0) =~= cs@);
        assert(views(words@) + words_of(cs@) =~= words_of(cs@));
    }
    while i < cs.len()
        invariant
            i <= cs@.len(),
            views(words@) + words_of(cs@.skip(i as int)) == words_of(cs@),
        decreases cs.len() - i,
    {
        let ghost rest = cs@.skip(i as int);
        let ghost before = views(words@);
        let c = cs[i];
        proof {
            assert(rest[0] == c);
        }
        if is_ascii_alphanumeric(c) {
            let ghost p = |c: char| ascii_alphanumeric(c);
            let mut to: usize = i;
            while to < cs.len() && is_ascii_alphanumeric(cs[to])
                invariant
                    i <= to <= cs@.len(),
                    p == (|c: char| ascii_alphanumeric(c)),
                    rest == cs@.skip(i as int),
                    run_len(rest, p) == (to - i) + run_len(cs@.skip(to as int), p),
                decreases cs.len() - to,
            {
                proof {
                    assert(cs@.skip(to as int)[0] == cs@[to as int]);
                    assert(cs@.skip(to as int).drop_first() =~= cs@.skip(to + 1));
                }
                to = to + 1;
            }
            proof {
                lemma_run_len(rest, p);
                if to < cs@.len() {
                    assert(cs@.skip(to as int)[0] == cs@[to as int]);
                }
                assert(run_len(cs@.skip(to as int), p) == 0);
                assert(rest.take(to - i) =~= cs@.subrange(i as int, to as int));
                assert(rest.skip(to - i) =~= cs@.skip(to as int));
            }
            let w = string_between(cs, i, to);
            words.push(w);
            proof {
                assert(views(words@) =~= before.push(w@));
                assert(views(words@) + words_of(cs@.skip(to as int)) =~= before + (seq![w@]
                    + words_of(cs@.skip(to as int))));
            }
            i = to;
        } else if c as u32 >= 128 {
            let ghost p = |c: char| beyond_ascii(c);
            let mut to: usize = i;
            while to < cs.len() && cs[to] as u32 >= 128
                invariant
                    i <= to <= cs@.len(),
                    p == (|c: char| beyond_ascii(c)),
                    rest == cs@.skip(i as int),
                    run_len(rest, p) == (to - i) + run_len(cs@.skip(to as int), p),
                decreases cs.len() - to,
            {
                proof {
                    assert(cs@.skip(to as int)[0] == cs@[to as int]);
                    assert(cs@.skip(to as int).drop_first() =~= cs@.skip(to + 1));
                }
                to = to + 1;
            }
            proof {
                lemma_run_len(rest, p);
                if to < cs@.len() {
                    assert(cs@.skip(to as int)[0] == cs@[to as int]);
                }
                assert(run_len(cs@.skip(to as int), p) == 0);
                assert(rest.take(to - i) =~= cs@.subrange(i as int, to as int));
                assert(rest.skip(to - i) =~= cs@.skip(to as int));
            }
            push_pairs(&mut words, cs, i, to);
            proof {
                let run = cs@.subrange(i as int, to as int);
                assert(views(words@) + words_of(cs@.skip(to as int)) =~= before + (pair_words(run)
                    + words_of(cs@.skip(to as int))));
            }
            i = to;
        } else {
            proof {
                assert(rest.skip(1) =~= cs@.skip(i + 1));
            }
            i = i + 1;
        }
    }
    proof {
        assert(words_of(cs@.skip(i as int)) =~= Seq::<Seq<char>>::empty());
        assert(views(words@) + Seq::<Seq<char>>::empty() =~= views(words@));
    }
    words
}

/// How many of the words stand in a text.
pub open spec fn hits_in(words: Seq<Seq<char>>, t: Seq<char>) -> nat
    decreases words.len(),
{
    if words.len() == 0 {
        0
    } else {
        hits_in(words.drop_last(), t) + if has_text(t, words.last()) {
            1nat
        } else {
            0nat
        }
    }
}

/// How many of the words of a query stand in a text.
pub fn overlap_score(q: &[char], t: &str) -> (r: usize)
    ensures
        r == hits_in(words_of(q@), t@),
{
    let words = split_words(q);
    let ghost all = views(words@);
    let mut n: usize = 0;
    let mut i: usize = 0;
    while i < words.len()
        invariant
            i <= words.len(),
            n <= i,
            all == views(words@),
            n == hits_in(all.take(i as int), t@),
        decreases words.len() - i,
    {
        proof {
            assert(all.take(i + 1).drop_last() =~= all.take(i as int));
            assert(all.take(i + 1).last() == words@[i as int]@);
        }
        if contains(t, words[i].as_str()) {
            n = n + 1;
        }
        i = i + 1;
    }
    proof {
        assert(all.take(i as int) =~= all);
    }
    n
}

// ---------------------------------------------------------------------------
// Recall
// ---------------------------------------------------------------------------

/// A memory that fits a query.
pub struct Hit {
    pub importance: i32,
    pub text: String,
    pub entity: String,
    pub created_at: String,
}

/// The contents of a hit.
pub struct HitView {
    pub importance: i32,
    pub text: Seq<char>,
    pub entity: Seq<char>,
    pub created_at: Seq<char>,
}

impl View for Hit {
    type V = HitView;

    open spec fn view(&self) -> HitView {
        HitView {
            importance: self.importance,
            text: self.text@,
            entity: self.entity@,
            created_at: self.created_at@,
        }
    }
}

/// The contents of each hit.
pub open spec fn hit_views(v: Seq<Hit>) -> Seq<HitView> {
    v.map_values(|x: Hit| x@)
}

/// Whether a fact fits a query, both in lower case: a word of the query stands in
/// it.
pub open spec fn fact_fits(q: Seq<char>, t: Seq<char>) -> bool {
    hits_in(words_of(q), t) > 0
}

/// Whether an entry of a persona fits a query, both in lower case: one stands in the
/// other, or a word of the query stands in it.
pub open spec fn entry_fits(q: Seq<char>, t: Seq<char>) -> bool {
    has_text(t, q) || has_text(q, t) || hits_in(words_of(q), t) > 0
}

/// Whether a fact fits a query, both in lower case.
pub fn does_fact_fit(q: &str, t: &str) -> (r: bool)
    ensures
        r == fact_fits(q@, t@),
{
    let cs = chars_of(q);
    overlap_score(cs.as_slice(), t) > 0
}

/// Whether an entry of a persona fits a query, both in lower case.
pub fn does_entry_fit(q: &str, t: &str) -> (r: bool)
    ensures
        r == entry_fits(q@, t@),
{
    contains(t, q) || contains(q, t) || does_fact_fit(q, t)
}

/// The facts that fit a query in lower case.
pub open spec fn fact_hits(facts: Seq<FactView>, q: Seq<char>) -> Seq<HitView>
    decreases facts.len(),
{
    if facts.len() == 0 {
        Seq::empty()
    } else {
        let rest = fact_hits(facts.drop_last(), q);
        let f = facts.last();
        if fact_fits(q, lowercase_of(f.text)) {
            rest.push(
                HitView {
                    importance: f.importance,
                    text: f.text,
                    entity: f.entity,
                    created_at: f.created_at,
                },
            )
        } else {
            rest
        }
    }
}

/// The entries on the user that fit a query in lower case; they weigh most.
pub open spec fn entry_hits(texts: Seq<Seq<char>>, q: Seq<char>) -> Seq<HitView>
    decreases texts.len(),
{
    if texts.len() == 0 {
        Seq::empty()
    } else {
        let rest = entry_hits(texts.drop_last(), q);
        let t = texts.last();
        if entry_fits(q, lowercase_of(t)) {
            rest.push(
                HitView { importance: 10, text: t, entity: "master"@, created_at: Seq::empty() },
            )
        } else {
            rest
        }
    }
}

/// The hits, the first of each text.
pub open spec fn distinct_hits(hits: Seq<HitView>) -> Seq<HitView>
    decreases hits.len(),
{
    if hits.len() == 0 {
        Seq::empty()
    } else {
        let kept = distinct_hits(hits.drop_last());
        let h = hits.last();
        if exists|i: int| 0 <= i < kept.len() && (#[trigger] kept[i]).text == h.text {
            kept
        } else {
            kept.push(h)
        }
    }
}

/// How long ago a hit was stored, in brackets; nothing where that is not known.
pub open spec fn hit_age(h: HitView, now: Wall) -> Seq<char> {
    if h.created_at.len() == 0 {
        Seq::empty()
    } else {
        " ("@ + age_label(h.created_at, now) + ")"@
    }
}

/// The line of a hit.
pub open spec fn hit_line(n: int, h: HitView, now: Wall) -> Seq<char> {
    decimal(n) + ". ["@ + label_of(h.entity) + "] "@ + h.text + hit_age(h, now)
}

/// The lines of hits, numbered from 1.
pub open spec fn hit_lines(hits: Seq<HitView>, now: Wall) -> Seq<Seq<char>> {
    Seq::new(hits.len(), |i: int| hit_line(i + 1, hits[i], now))
}

/// The hits as they are shown: the most important first, each text once, as many
/// as asked for and one at least.
pub open spec fn shown_hits(hits: Seq<HitView>, max_items: int) -> Seq<HitView> {
    at_most(
        distinct_hits(
            sorted_by(hits, |a: HitView, b: HitView| a.importance > b.importance),
        ),
        if max_items < 1 {
            1
        } else {
            max_items
        },
    )
}

/// The text that shows hits; nothing where there are none.
pub open spec fn shown(hits: Seq<HitView>, now: Wall) -> Seq<char> {
    if hits.len() == 0 {
        Seq::empty()
    } else {
        "【回忆到的】\n"@ + joined(hit_lines(hits, now), "\n"@)
    }
}

impl StoreView {
    /// The memories that fit a query.
    pub open spec fn hits(self, query: Seq<char>) -> Seq<HitView> {
        let q = lowercase_of(query);
        fact_hits(self.all_facts(), q) + match self.persona.items_at("master"@) {
            Some(items) => entry_hits(entry_texts(items), q),
            None => Seq::empty(),
        }
    }

    /// The memories that fit a query, as a text.
    pub open spec fn recalled(self, query: Seq<char>, max_items: int, now: Wall) -> Seq<char> {
        shown(shown_hits(self.hits(query), max_items), now)
    }
}

fn find_facts(facts: Vec<Fact>, q: &str) -> (r: Vec<Hit>)
    ensures
        hit_views(r@) == fact_hits(fact_views(facts@), q@),
{
    let ghost all = fact_views(facts@);
    let mut out: Vec<Hit> = Vec::new();
    let mut i: usize = 0;
    proof {
        assert(hit_views(out@) =~= fact_hits(all.take(0), q@));
    }
    while i < facts.len()
        invariant
            i <= facts.len(),
            all == fact_views(facts@),
            hit_views(out@) == fact_hits(all.take(i as int), q@),
        decreases facts.len() - i,
    {
        let ghost before = hit_views(out@);
        proof {
            assert(all.take(i + 1).drop_last() =~= all.take(i as int));
            assert(all.take(i + 1).last() == facts@[i as int]@);
        }
        let t = facts[i].text.as_str().to_lowercase();
        if does_fact_fit(q, t.as_str()) {
            let h = Hit {
                importance: facts[i].importance,
                text: facts[i].text.as_str().to_string(),
                entity: facts[i].entity.as_str().to_string(),
                created_at: facts[i].created_at.as_str().to_string(),
            };
            out.push(h);
            proof {
                assert(hit_views(out@) =~= before.push(h@));
            }
        }
        i = i + 1;
    }
    proof {
        assert(all.take(i as int) =~= all);
    }
    out
}

fn find_entries(texts: Vec<String>, q: &str) -> (r: Vec<Hit>)
    ensures
        hit_views(r@) == entry_hits(views(texts@), q@),
{
    let ghost all = views(texts@);
    let mut out: Vec<Hit> = Vec::new();
    let mut i: usize = 0;
    proof {
        assert(hit_views(out@) =~= entry_hits(all.take(0), q@));
    }
    while i < texts.len()
        invariant
            i <= texts.len(),
            all == views(texts@),
            hit_views(out@) == entry_hits(all.take(i as int), q@),
        decreases texts.len() - i,
    {
        let ghost before = hit_views(out@);
        proof {
            assert(all.take(i + 1).drop_last() =~= all.take(i as int));
            assert(all.take(i + 1).last() == texts@[i as int]@);
        }
        let t = texts[i].as_str().to_lowercase();
        if does_entry_fit(q, t.as_str()) {
            let nothing = String::new();
            proof {
                assert(nothing@ =~= Seq::<char>::empty());
            }
            let h = Hit {
                importance: 10,
                text: texts[i].as_str().to_string(),
                entity: "master".to_string(),
                created_at: nothing,
            };
            out.push(h);
            proof {
                assert(hit_views(out@) =~= before.push(h@));
            }
        }
        i = i + 1;
    }
    proof {
        assert(all.take(i as int) =~= all);
    }
    out
}

fn drop_repeats(hits: Vec<Hit>) -> (r: Vec<Hit>)
    ensures
        hit_views(r@) == distinct_hits(hit_views(hits@)),
{
    let ghost all = hit_views(hits@);
    let mut rest = hits;
    let mut kept: Vec<Hit> = Vec::new();
    let ghost mut done: int = 0;
    proof {
        assert(hit_views(kept@) =~= distinct_hits(all.take(0)));
        assert(all.skip(0) =~= all);
    }
    while rest.len() > 0
        invariant
            0 <= done <= all.len(),
            hit_views(rest@) == all.skip(done),
            hit_views(kept@) == distinct_hits(all.take(done)),
        decreases rest.len(),
    {
        let ghost left = hit_views(rest@);
        let ghost before = hit_views(kept@);
        let h = rest.remove(0);
        proof {
            assert(left.len() == rest@.len() + 1);
            assert(left[0] == h@);
            assert(h@ == all[done]);
            assert(hit_views(rest@) =~= left.skip(1));
            assert(left.skip(1) =~= all.skip(done + 1));
            assert(all.take(done + 1).drop_last() =~= all.take(done));
            assert(all.take(done + 1).last() == h@);
        }
        let mut seen: bool = false;
        let mut k: usize = 0;
        while k < kept.len() && !seen
            invariant
                k <= kept.len(),
                before == hit_views(kept@),
                seen == exists|m: int| 0 <= m < k && (#[trigger] before[m]).text == h@.text,
            decreases kept.len() - k,
        {
            proof {
                assert(before[k as int] == kept@[k as int]@);
            }
            if same_text(kept[k].text.as_str(), h.text.as_str()) {
                seen = true;
                assert(before[k as int].text == h@.text);
            }
            k = k + 1;
        }
        if !seen {
            let ghost said = h@;
            kept.push(h);
            proof {
                assert(hit_views(kept@) =~= before.push(said));
            }
        }
        proof {
            done = done + 1;
        }
    }
    proof {
        assert(all.skip(done).len() == 0);
        assert(all.take(done) =~= all);
    }
    kept
}

fn hit_text(n: usize, h: &Hit, now: Wall) -> (r: String)
    ensures
        r@ == hit_line(n as int, h@, now),
{
    let mut line = decimal_u64(n as u64);
    line.append(". [");
    line.append(entity_label(h.entity.as_str()));
    line.append("] ");
    line.append(h.text.as_str());
    let ghost before = line@;
    if !is_empty(h.created_at.as_str()) {
        let mut age = " (".to_string();
        age.append(age_text(h.created_at.as_str(), now).as_str());
        age.append(")");
        line.append(age.as_str());
    } else {
        proof {
            assert(before + Seq::<char>::empty() =~= before);
        }
    }
    line
}

/// Hits as a text: the most important first, each text once, as many as asked for
/// and one at least.
pub fn show_hits(hits: Vec<Hit>, max_items: usize, now: Wall) -> (r: String)
    ensures
        r@ == shown(shown_hits(hit_views(hits@), max_items as int), now),
{
    let f = |a: &Hit, b: &Hit| -> (c: bool)
        ensures
            c == (a@.importance > b@.importance),
        { a.importance > b.importance };
    let sorted = stable_sort(
        hits,
        f,
        Ghost(|a: HitView, b: HitView| a.importance > b.importance),
    );
    let distinct = drop_repeats(sorted);
    let limit: usize = if max_items < 1 {
        1
    } else {
        max_items
    };
    let ghost said = hit_views(distinct@);
    let top = shorten(distinct, limit);
    let ghost all = hit_views(top@);
    proof {
        assert(all =~= at_most(said, limit as int));
    }
    if top.len() == 0 {
        let nothing = String::new();
        proof {
            assert(nothing@ =~= Seq::<char>::empty());
        }
        return nothing;
    }
    let ghost goal = hit_lines(all, now);
    let mut lines: Vec<String> = Vec::new();
    let mut i: usize = 0;
    while i < top.len()
        invariant
            i <= top.len(),
            all == hit_views(top@),
            goal == hit_lines(all, now),
            views(lines@) =~= goal.take(i as int),
        decreases top.len() - i,
    {
        let ghost before = views(lines@);
        let line = hit_text(i + 1, &top[i], now);
        lines.push(line);
        proof {
            assert(all[i as int] == top@[i as int]@);
            assert(views(lines@) =~= before.push(line@));
            assert(goal.take(i + 1) =~= goal.take(i as int).push(goal[i as int]));
        }
        i = i + 1;
    }
    proof {
        assert(goal.take(i as int) =~= goal);
    }
    let mut out = "【回忆到的】\n".to_string();
    out.append(join(&lines, "\n").as_str());
    out
}

impl MemoryStore {
    /// The memories that fit a query, as a text, as of now.
    pub fn recall(&self, query: &str, max_items: usize) -> (r: String)
        ensures
            exists|now: Wall| r@ == #[trigger] self@.recalled(query@, max_items as int, now),
    {
        self.recall_at(query, max_items, local_now().wall)
    }

    /// The memories that fit a query, as a text, as of `now`.
    pub fn recall_at(&self, query: &str, max_items: usize, now: Wall) -> (r: String)
        ensures
            r@ == self@.recalled(query@, max_items as int, now),
    {
        let q = query.to_lowercase();
        let mut hits = find_facts(self.get_facts(), q.as_str());
        let ghost first = hit_views(hits@);
        match self.get_persona().items_at("master") {
            Some(items) => {
                let mut more = find_entries(texts_of(items), q.as_str());
                let ghost second = hit_views(more@);
                hits.append(&mut more);
                proof {
                    assert(hit_views(hits@) =~= first + second);
                }
            },
            None => {
                proof {
                    assert(first + Seq::<HitView>::empty() =~= first);
                }
            },
        }
        show_hits(hits, max_items, now)
    }
}

/// Every fact that is recalled has a word of the query in it.
pub proof fn law_fact_hits_fit(facts: Seq<FactView>, q: Seq<char>, i: int)
    requires
        0 <= i < fact_hits(facts, q).len(),
    ensures
        fact_fits(q, lowercase_of(fact_hits(facts, q)[i].text)),
        exists|k: int|
            0 <= k < facts.len() && (#[trigger] facts[k]).text == fact_hits(facts, q)[i].text,
    decreases facts.len(),
{
    let rest = facts.drop_last();
    if i < fact_hits(rest, q).len() {
        law_fact_hits_fit(rest, q, i);
        assert(fact_hits(facts, q)[i] == fact_hits(rest, q)[i]);
        let k = choose|k: int|
            0 <= k < rest.len() && (#[trigger] rest[k]).text == fact_hits(rest, q)[i].text;
        assert(facts[k].text == fact_hits(facts, q)[i].text);
    } else {
        assert(facts[facts.len() - 1].text == fact_hits(facts, q)[i].text);
    }
}

/// Hits are shown once each, and nothing is shown that is no hit.
pub proof fn law_shown_hits(hits: Seq<HitView>, max_items: int)
    ensures
        forall|i: int, j: int|
            0 <= i < j < shown_hits(hits, max_items).len() ==> (#[trigger] shown_hits(
                hits,
                max_items,
            )[i]).text != (#[trigger] shown_hits(hits, max_items)[j]).text,
        forall|i: int|
            0 <= i < shown_hits(hits, max_items).len() ==> hits.contains(
                #[trigger] shown_hits(hits, max_items)[i],
            ),
{
    let before = |a: HitView, b: HitView| a.importance > b.importance;
    let sorted = sorted_by(hits, before);
    lemma_distinct_hits(sorted);
    assert forall|i: int| 0 <= i < shown_hits(hits, max_items).len() implies hits.contains(
        #[trigger] shown_hits(hits, max_items)[i],
    ) by {
        let x = distinct_hits(sorted)[i];
        assert(sorted.contains(x));
        crate::order::lemma_sort_contains(hits, before, x);
    }
    let d = distinct_hits(sorted);
    assert forall|i: int, j: int| 0 <= i < j < shown_hits(hits, max_items).len() implies (
    #[trigger] shown_hits(hits, max_items)[i]).text != (#[trigger] shown_hits(
        hits,
        max_items,
    )[j]).text by {
        assert(d[i].text != d[j].text);
    }
}

proof fn lemma_distinct_hits(hits: Seq<HitView>)
    ensures
        forall|i: int, j: int|
            0 <= i < j < distinct_hits(hits).len() ==> (#[trigger] distinct_hits(hits)[i]).text
                != (#[trigger] distinct_hits(hits)[j]).text,
        forall|i: int|
            0 <= i < distinct_hits(hits).len() ==> hits.contains(
                #[trigger] distinct_hits(hits)[i],
            ),
    decreases hits.len(),
{
    if hits.len() > 0 {
        let rest = hits.drop_last();
        let kept = distinct_hits(rest);
        let all = distinct_hits(hits);
        lemma_distinct_hits(rest);
        assert forall|i: int, j: int| 0 <= i < j < all.len() implies (#[trigger] all[i]).text != (
        #[trigger] all[j]).text by {
            assert(all[i] == kept[i]);
            if j < kept.len() {
                assert(all[j] == kept[j]);
            }
        }
        assert forall|i: int| 0 <= i < all.len() implies hits.contains(#[trigger] all[i]) by {
            if i < kept.len() {
                assert(all[i] == kept[i]);
                let k = choose|k: int| 0 <= k < rest.len() && rest[k] == kept[i];
                assert(hits[k] == kept[i]);
            } else {
                assert(all[i] == hits[hits.len() - 1]);
            }
        }
    }
}

} // verus!
