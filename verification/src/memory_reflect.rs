//! Reflections drawn from facts, and facts held against reflections.

use crate::chat::{json_question, json_question_request, strip_markdown_fence, unfenced_lines};
use crate::config::{content_view, memory_model, memory_model_of};
use crate::json::{json_read, json_views, read_json, Json, JsonView};
use crate::memory::{
    copy_strings, fact_views, ids_of, initial_reinforcement_from_importance, seed_of, Fact,
    FactView, MemoryStore, Reflection, ReflectionView, StoreView, MIN_FACTS_FOR_REFLECTION,
    USER_FACT_NEGATE_DELTA, USER_FACT_REINFORCE_DELTA,
};
use crate::memory_prompts::{REFLECTION_PROMPT, SIGNAL_DETECTION_PROMPT};
use crate::order::{at_most, select, shorten, sort_texts, sorted_by, stable_sort, text_before};
use crate::reflections::place_of;
use crate::text::{
    decimal, decimal_i64, head, hex_bytes, hex_of, is_empty, join, joined, replace, replaced,
    same_text, take_chars, trim, trimmed, views,
};
use vstd::prelude::*;

verus! {

// ---------------------------------------------------------------------------
// The id of a reflection
// ---------------------------------------------------------------------------

/// The SHA-256 digest of bytes, as `sha2::Sha256` computes it.
pub uninterp spec fn sha256_of(bytes: Seq<u8>) -> Seq<u8>;

/// `sha2::Sha256::digest`, by its name `sha256_of`: the digest has thirty-two bytes.
#[verifier::external_body]
fn sha256(bytes: &[u8]) -> (r: Vec<u8>)
    ensures
        r@ == sha256_of(bytes@),
        r@.len() == 32,
{
    <sha2::Sha256 as sha2::Digest>::digest(bytes).to_vec()
}

/// What is digested for a list of ids: the ids in order, each on a line of its own, in
/// UTF-8.
pub open spec fn ids_digested(fact_ids: Seq<Seq<char>>) -> Seq<u8> {
    vstd::utf8::encode_utf8(
        joined(sorted_by(fact_ids, |a: Seq<char>, b: Seq<char>| text_before(a, b)), "\n"@),
    )
}

/// The id that a digest gives: its first sixteen hexadecimal digits.
pub open spec fn id_of_digest(digest: Seq<u8>) -> Seq<char> {
    "ref_"@ + head(hex_of(digest), 16)
}

/// The id of a reflection on facts with these ids: it depends on which they are, and
/// not on their order.
pub open spec fn reflection_id(fact_ids: Seq<Seq<char>>) -> Seq<char> {
    id_of_digest(sha256_of(ids_digested(fact_ids)))
}

/// The id that a digest gives.
pub fn id_from_digest(digest: &[u8]) -> (r: String)
    ensures
        r@ == id_of_digest(digest@),
        digest@.len() >= 8 ==> r@.len() == 20,
{
    let mut out = "ref_".to_string();
    out.append(take_chars(hex_bytes(digest).as_str(), 16).as_str());
    proof {
        reveal_strlit("ref_");
    }
    out
}

/// The id of a reflection on facts with these ids.
pub fn reflection_id_from_facts(fact_ids: &Vec<String>) -> (r: String)
    ensures
        r@ == reflection_id(views(fact_ids@)),
        r@.len() == 20,
{
    let sorted = sort_texts(copy_strings(fact_ids));
    let text = join(&sorted, "\n");
    id_from_digest(sha256(text.as_str().as_bytes()).as_slice())
}

/// The same facts in another order give the same id.
pub proof fn law_reflection_id_ignores_order(a: Seq<Seq<char>>, b: Seq<Seq<char>>)
    requires
        a.to_multiset() == b.to_multiset(),
    ensures
        reflection_id(a) == reflection_id(b),
{
    crate::order::lemma_text_sort_unique(a, b);
}

// ---------------------------------------------------------------------------
// Drawing a reflection
// ---------------------------------------------------------------------------

/// The most facts that one reflection is drawn from.
pub const REFLECTION_POOL: usize = 20;

/// The most older facts that are shown with them.
pub const RELATED_FACTS: usize = 10;

/// The facts that a reflection is drawn from: the most important of those that none
/// has drawn on.
pub open spec fn pool_of(unabsorbed: Seq<FactView>) -> Seq<FactView> {
    at_most(
        sorted_by(unabsorbed, |a: FactView, b: FactView| a.importance > b.importance),
        REFLECTION_POOL as int,
    )
}

/// A fact with its importance.
pub open spec fn weighed_line(f: FactView) -> Seq<char> {
    "- "@ + f.text + " (importance: "@ + decimal(f.importance as int) + ")"@
}

/// `out` followed by a line for each fact.
pub open spec fn with_weighed(out: Seq<char>, facts: Seq<FactView>) -> Seq<char>
    decreases facts.len(),
{
    if facts.len() == 0 {
        out
    } else {
        with_weighed(out, facts.drop_last()) + weighed_line(facts.last()) + "\n"@
    }
}

/// The older facts as they are shown; nothing where there are none.
pub open spec fn related_block(absorbed: Seq<FactView>) -> Seq<char> {
    if absorbed.len() == 0 {
        Seq::empty()
    } else {
        with_weighed(
            "以下为此前已确认的相关事实（避免新反思与其矛盾）：\n"@,
            at_most(absorbed, RELATED_FACTS as int),
        ) + "\n"@
    }
}

/// The lines of facts.
pub open spec fn weighed_lines(facts: Seq<FactView>) -> Seq<Seq<char>> {
    facts.map_values(|f: FactView| weighed_line(f))
}

/// The question for a reflection.
pub open spec fn reflection_prompt(
    pool: Seq<FactView>,
    absorbed: Seq<FactView>,
    lanlan_name: Seq<char>,
    master_name: Seq<char>,
) -> Seq<char> {
    replaced(
        replaced(
            replaced(
                replaced(REFLECTION_PROMPT@, "{LANLAN_NAME}"@, lanlan_name),
                "{MASTER_NAME}"@,
                master_name,
            ),
            "{RELATED_CONTEXT_BLOCK}"@,
            related_block(absorbed),
        ),
        "{FACTS}"@,
        joined(weighed_lines(pool), "\n"@),
    )
}

fn weighed_text(f: &Fact) -> (r: String)
    ensures
        r@ == weighed_line(f@),
{
    let mut out = "- ".to_string();
    out.append(f.text.as_str());
    out.append(" (importance: ");
    out.append(decimal_i64(f.importance as i64).as_str());
    out.append(")");
    out
}

fn related_text(absorbed: Vec<Fact>) -> (r: String)
    ensures
        r@ == related_block(fact_views(absorbed@)),
{
    let ghost given = fact_views(absorbed@);
    if absorbed.len() == 0 {
        let nothing = String::new();
        proof {
            assert(nothing@ =~= Seq::<char>::empty());
        }
        return nothing;
    }
    let top = shorten(absorbed, RELATED_FACTS);
    let ghost all = fact_views(top@);
    proof {
        assert(all =~= at_most(given, RELATED_FACTS as int));
    }
    let mut out = "以下为此前已确认的相关事实（避免新反思与其矛盾）：\n".to_string();
    let ghost title = out@;
    let mut i: usize = 0;
    while i < top.len()
        invariant
            i <= top.len(),
            all == fact_views(top@),
            out@ == with_weighed(title, all.take(i as int)),
        decreases top.len() - i,
    {
        proof {
            assert(all.take(i + 1).drop_last() =~= all.take(i as int));
            assert(all.take(i + 1).last() == top@[i as int]@);
        }
        out.append(weighed_text(&top[i]).as_str());
        out.append("\n");
        i = i + 1;
    }
    proof {
        assert(all.take(i as int) =~= all);
    }
    out.append("\n");
    out
}

fn pool_text(pool: &Vec<Fact>) -> (r: String)
    ensures
        r@ == joined(weighed_lines(fact_views(pool@)), "\n"@),
{
    let ghost goal = weighed_lines(fact_views(pool@));
    let mut lines: Vec<String> = Vec::new();
    let mut i: usize = 0;
    while i < pool.len()
        invariant
            i <= pool.len(),
            goal == weighed_lines(fact_views(pool@)),
            views(lines@) =~= goal.take(i as int),
        decreases pool.len() - i,
    {
        let ghost before = views(lines@);
        let line = weighed_text(&pool[i]);
        lines.push(line);
        proof {
            assert(views(lines@) =~= before.push(line@));
            assert(goal.take(i + 1) =~= goal.take(i as int).push(goal[i as int]));
        }
        i = i + 1;
    }
    proof {
        assert(goal.take(i as int) =~= goal);
    }
    join(&lines, "\n")
}

fn fact_ids(facts: &Vec<Fact>) -> (r: Vec<String>)
    ensures
        views(r@) == ids_of(fact_views(facts@)),
{
    let ghost goal = ids_of(fact_views(facts@));
    let mut out: Vec<String> = Vec::new();
    let mut i: usize = 0;
    while i < facts.len()
        invariant
            i <= facts.len(),
            goal == ids_of(fact_views(facts@)),
            views(out@) =~= goal.take(i as int),
        decreases facts.len() - i,
    {
        let ghost before = views(out@);
        let id = facts[i].id.as_str().to_string();
        out.push(id);
        proof {
            assert(views(out@) =~= before.push(id@));
            assert(goal.take(i + 1) =~= goal.take(i as int).push(goal[i as int]));
        }
        i = i + 1;
    }
    proof {
        assert(goal.take(i as int) =~= goal);
    }
    out
}

/// What is to be done for a reflection.
pub enum Synthesis {
    /// There are too few facts.
    TooFew,
    /// There is a reflection on these facts; they have been marked.
    Known,
    /// The model is to be asked about these facts.
    Ask { pool: Vec<Fact>, request: Json },
}

impl StoreView {
    /// The facts that a reflection can be drawn from.
    pub open spec fn pool(self) -> Seq<FactView> {
        pool_of(self.unabsorbed(5))
    }

    /// Whether there are facts enough for a reflection.
    pub open spec fn may_reflect(self) -> bool {
        self.unabsorbed(5).len() >= MIN_FACTS_FOR_REFLECTION
    }

    /// Whether there is a reflection on these facts.
    pub open spec fn has_reflection_on(self, ids: Seq<Seq<char>>) -> bool {
        place_of(self.reflections, reflection_id(ids), 0) is Some
    }

    /// The facts that reflections have drawn on.
    pub open spec fn absorbed(self) -> Seq<FactView> {
        self.all_facts().filter(|f: FactView| f.absorbed)
    }
}

/// Prepares a reflection: with five facts or more that none has drawn on, and none
/// on just these, it asks for one. Facts on which there is one are marked.
pub fn prepare_reflection(
    store: &mut MemoryStore,
    config: Option<&str>,
    lanlan_name: &str,
    master_name: &str,
) -> (r: Synthesis)
    ensures
        ({
            let s = old(store)@;
            match r {
                Synthesis::TooFew => !s.may_reflect() && final(store)@ == s,
                Synthesis::Known => s.may_reflect() && s.has_reflection_on(ids_of(s.pool()))
                    && final(store)@ == s.with_marks(ids_of(s.pool()), "absorbed"@),
                Synthesis::Ask { pool, request } => s.may_reflect() && !s.has_reflection_on(
                    ids_of(s.pool()),
                ) && final(store)@ == s && fact_views(pool@) == s.pool() && request@
                    == json_question(
                    memory_model_of(content_view(config)),
                    reflection_prompt(s.pool(), s.absorbed(), lanlan_name@, master_name@),
                ),
            }
        }),
{
    let unabsorbed = store.get_unabsorbed_facts(5);
    proof {
        assert(fact_views(unabsorbed@).len() == unabsorbed@.len());
    }
    if unabsorbed.len() < MIN_FACTS_FOR_REFLECTION {
        return Synthesis::TooFew;
    }
    let f = |a: &Fact, b: &Fact| -> (c: bool)
        ensures
            c == (a@.importance > b@.importance),
        { a.importance > b.importance };
    let sorted = stable_sort(
        unabsorbed,
        f,
        Ghost(|a: FactView, b: FactView| a.importance > b.importance),
    );
    let ghost said = fact_views(sorted@);
    let pool = shorten(sorted, REFLECTION_POOL);
    proof {
        assert(fact_views(pool@) =~= at_most(said, REFLECTION_POOL as int));
    }
    let ids = fact_ids(&pool);
    let rid = reflection_id_from_facts(&ids);
    if crate::reflections::has_reflection(store.reflections(), rid.as_str()) {
        let _ = store.mark_facts_absorbed(&ids);
        return Synthesis::Known;
    }
    let g = |a: &Fact| -> (c: bool)
        ensures
            c == a@.absorbed,
        { a.absorbed };
    let absorbed = select(store.get_facts(), g, Ghost(|a: FactView| a.absorbed));
    let related = related_text(absorbed);
    let facts = pool_text(&pool);
    proof {
        reveal_strlit("{LANLAN_NAME}");
        reveal_strlit("{MASTER_NAME}");
        reveal_strlit("{RELATED_CONTEXT_BLOCK}");
        reveal_strlit("{FACTS}");
    }
    let a = replace(REFLECTION_PROMPT, "{LANLAN_NAME}", lanlan_name);
    let b = replace(a.as_str(), "{MASTER_NAME}", master_name);
    let c = replace(b.as_str(), "{RELATED_CONTEXT_BLOCK}", related.as_str());
    let prompt = replace(c.as_str(), "{FACTS}", facts.as_str());
    let request = json_question_request(memory_model(config).as_str(), prompt.as_str());
    Synthesis::Ask { pool, request }
}

/// The greatest importance among facts, and zero where there are none.
pub open spec fn top_importance(facts: Seq<FactView>) -> i32
    decreases facts.len(),
{
    if facts.len() == 0 {
        0
    } else if facts.len() == 1 {
        facts[0].importance
    } else {
        let rest = top_importance(facts.drop_last());
        if facts.last().importance >= rest {
            facts.last().importance
        } else {
            rest
        }
    }
}

fn greatest_importance(facts: &Vec<Fact>) -> (r: i32)
    ensures
        r == top_importance(fact_views(facts@)),
{
    if facts.len() == 0 {
        return 0;
    }
    let ghost all = fact_views(facts@);
    let mut top: i32 = facts[0].importance;
    let mut i: usize = 1;
    proof {
        assert(all.take(1)[0] == facts@[0]@);
    }
    while i < facts.len()
        invariant
            1 <= i <= facts.len(),
            all == fact_views(facts@),
            top == top_importance(all.take(i as int)),
        decreases facts.len() - i,
    {
        proof {
            assert(all.take(i + 1).drop_last() =~= all.take(i as int));
            assert(all.take(i + 1).last() == facts@[i as int]@);
        }
        if facts[i].importance >= top {
            top = facts[i].importance;
        }
        i = i + 1;
    }
    proof {
        assert(all.take(i as int) =~= all);
    }
    top
}

/// The reflection in an answer on these facts at `now`.
pub open spec fn new_reflection(v: JsonView, pool: Seq<FactView>, now: Seq<char>) -> ReflectionView {
    ReflectionView {
        id: reflection_id(ids_of(pool)),
        text: trimmed(v.text_or("reflection"@, ""@)),
        entity: v.text_or("entity"@, "master"@),
        relation_type: v.text_or("relation_type"@, ""@),
        temporal_scope: v.text_or("temporal_scope"@, "pattern"@),
        status: "pending"@,
        source_fact_ids: ids_of(pool),
        reinforcement: seed_of(top_importance(pool)),
        disputation: 0,
        rein_last_signal_at: Some(now),
        disp_last_signal_at: None,
        created_at: now,
        confirmed_at: None,
    }
}

/// Takes in the reflection of a document, on these facts, at `now`.
pub fn take_reflection(store: &mut MemoryStore, pool: &Vec<Fact>, v: &Json, now: &str) -> (r: Result<
    bool,
    String,
>)
    ensures
        ({
            let s = old(store)@;
            let p = fact_views(pool@);
            let q = new_reflection(v@, p, now@);
            if q.text.len() == 0 {
                r matches Err(e) && e@ == "反思内容为空"@ && final(store)@ == s
            } else {
                r == Ok::<bool, String>(!s.has_reflection_on(ids_of(p))) && final(store)@
                    == s.with_reflection(q).with_marks(ids_of(p), "absorbed"@)
            }
        }),
{
    let text = trim(v.text_or("reflection", "").as_str());
    if is_empty(text.as_str()) {
        return Err("反思内容为空".to_string());
    }
    let ids = fact_ids(pool);
    let q = Reflection {
        id: reflection_id_from_facts(&ids),
        text,
        entity: v.text_or("entity", "master"),
        relation_type: v.text_or("relation_type", ""),
        temporal_scope: v.text_or("temporal_scope", "pattern"),
        status: "pending".to_string(),
        source_fact_ids: copy_strings(&ids),
        reinforcement: initial_reinforcement_from_importance(greatest_importance(pool)),
        disputation: 0,
        rein_last_signal_at: Some(now.to_string()),
        disp_last_signal_at: None,
        created_at: now.to_string(),
        confirmed_at: None,
    };
    let added = store.add_reflection(q);
    let _ = store.mark_facts_absorbed(&ids);
    Ok(added)
}

/// What is said of an answer that is no JSON.
pub open spec fn reflection_broken(content: Seq<char>, e: Seq<char>) -> Seq<char> {
    "反思解析失败: "@ + e + "（原始: "@ + head(content, 150) + "）"@
}

/// Takes in the reflection of an answer, on these facts, at `now`; tells whether it
/// is new. The facts are marked either way, but not where the answer is of no use.
pub fn synthesize_reflection(
    store: &mut MemoryStore,
    pool: &Vec<Fact>,
    content: &str,
    now: &str,
) -> (r: Result<bool, String>)
    ensures
        ({
            let s = old(store)@;
            let p = fact_views(pool@);
            match json_read(unfenced_lines(content@)) {
                Err(e) => r matches Err(t) && t@ == reflection_broken(content@, e)
                    && final(store)@ == s,
                Ok(v) => {
                    let q = new_reflection(v, p, now@);
                    if q.text.len() == 0 {
                        r matches Err(e) && e@ == "反思内容为空"@ && final(store)@ == s
                    } else {
                        r == Ok::<bool, String>(!s.has_reflection_on(ids_of(p))) && final(store)@
                            == s.with_reflection(q).with_marks(ids_of(p), "absorbed"@)
                    }
                },
            }
        }),
{
    let cleaned = strip_markdown_fence(content);
    match read_json(cleaned.as_str()) {
        Err(e) => {
            let mut out = "反思解析失败: ".to_string();
            out.append(e.as_str());
            out.append("（原始: ");
            out.append(take_chars(content, 150).as_str());
            out.append("）");
            Err(out)
        },
        Ok(v) => take_reflection(store, pool, &v, now),
    }
}

/// Once a reflection was taken in, there is one on its facts, so that none is asked
/// for on just these again.
pub proof fn law_reflection_known_afterwards(
    s: StoreView,
    v: JsonView,
    pool: Seq<FactView>,
    now: Seq<char>,
)
    ensures
        s.with_reflection(new_reflection(v, pool, now)).with_marks(
            ids_of(pool),
            "absorbed"@,
        ).has_reflection_on(ids_of(pool)),
{
    let q = new_reflection(v, pool, now);
    let after = s.with_reflection(q).reflections;
    crate::reflections::lemma_place_of(s.reflections, q.id, 0);
    crate::reflections::lemma_place_of(after, q.id, 0);
    if place_of(s.reflections, q.id, 0) is None {
        assert(after[s.reflections.len() as int].id == q.id);
    }
}

// ---------------------------------------------------------------------------
// Holding facts against reflections
// ---------------------------------------------------------------------------

/// The most facts that are held against the reflections at once.
pub const SIGNAL_FACTS: usize = 10;

/// The most reflections that they are held against.
pub const SIGNAL_OBSERVATIONS: usize = 15;

/// A fact as it stands in the question.
pub open spec fn signal_fact_line(f: FactView) -> Seq<char> {
    f.id + ": "@ + f.text
}

/// A reflection as it stands in the question.
pub open spec fn observation_line(r: ReflectionView) -> Seq<char> {
    "reflection."@ + r.entity + "."@ + r.id + ": "@ + r.text
}

/// The question for signals.
pub open spec fn signal_prompt(facts: Seq<FactView>, observations: Seq<ReflectionView>) -> Seq<char> {
    replaced(
        replaced(
            SIGNAL_DETECTION_PROMPT@,
            "{NEW_FACTS}"@,
            joined(facts.map_values(|f: FactView| signal_fact_line(f)), "\n"@),
        ),
        "{EXISTING_OBSERVATIONS}"@,
        joined(
            at_most(observations, SIGNAL_OBSERVATIONS as int).map_values(
                |r: ReflectionView| observation_line(r),
            ),
            "\n"@,
        ),
    )
}

fn signal_facts_text(facts: &Vec<Fact>) -> (r: String)
    ensures
        r@ == joined(
            fact_views(facts@).map_values(|f: FactView| signal_fact_line(f)),
            "\n"@,
        ),
{
    let ghost goal = fact_views(facts@).map_values(|f: FactView| signal_fact_line(f));
    let mut lines: Vec<String> = Vec::new();
    let mut i: usize = 0;
    while i < facts.len()
        invariant
            i <= facts.len(),
            goal == fact_views(facts@).map_values(|f: FactView| signal_fact_line(f)),
            views(lines@) =~= goal.take(i as int),
        decreases facts.len() - i,
    {
        let ghost before = views(lines@);
        let mut line = facts[i].id.as_str().to_string();
        line.append(": ");
        line.append(facts[i].text.as_str());
        lines.push(line);
        proof {
            assert(views(lines@) =~= before.push(line@));
            assert(goal.take(i + 1) =~= goal.take(i as int).push(goal[i as int]));
        }
        i = i + 1;
    }
    proof {
        assert(goal.take(i as int) =~= goal);
    }
    join(&lines, "\n")
}

fn observations_text(rs: &Vec<Reflection>) -> (r: String)
    ensures
        r@ == joined(
            at_most(
                crate::memory::reflection_views(rs@),
                SIGNAL_OBSERVATIONS as int,
            ).map_values(|r: ReflectionView| observation_line(r)),
            "\n"@,
        ),
{
    let ghost top = at_most(crate::memory::reflection_views(rs@), SIGNAL_OBSERVATIONS as int);
    let ghost goal = top.map_values(|r: ReflectionView| observation_line(r));
    let mut lines: Vec<String> = Vec::new();
    let mut i: usize = 0;
    while i < rs.len() && i < SIGNAL_OBSERVATIONS
        invariant
            i <= rs.len(),
            i <= SIGNAL_OBSERVATIONS,
            top == at_most(crate::memory::reflection_views(rs@), SIGNAL_OBSERVATIONS as int),
            goal == top.map_values(|r: ReflectionView| observation_line(r)),
            views(lines@) =~= goal.take(i as int),
        decreases rs.len() - i,
    {
        let ghost before = views(lines@);
        let mut line = "reflection.".to_string();
        line.append(rs[i].entity.as_str());
        line.append(".");
        line.append(rs[i].id.as_str());
        line.append(": ");
        line.append(rs[i].text.as_str());
        lines.push(line);
        proof {
            assert(views(lines@) =~= before.push(line@));
            assert(goal.take(i + 1) =~= goal.take(i as int).push(goal[i as int]));
        }
        i = i + 1;
    }
    proof {
        assert(goal.take(i as int) =~= goal);
    }
    join(&lines, "\n")
}

/// What is asked for signals: the reflections and the facts, and the request.
pub struct SignalCheck {
    pub observations: Vec<Reflection>,
    pub facts: Vec<Fact>,
    pub request: Json,
}

impl StoreView {
    /// The reflections that facts are held against: all that are not archived.
    pub open spec fn observations(self) -> Seq<ReflectionView> {
        self.reflections.filter(|r: ReflectionView| r.status != "archived"@)
    }
}

/// Prepares a check for signals; nothing where there are no reflections or no facts
/// for it.
pub fn prepare_signals(store: &MemoryStore, config: Option<&str>) -> (r: Option<SignalCheck>)
    ensures
        ({
            let rs = store@.observations();
            let fs = store@.pending_signals(5, SIGNAL_FACTS as int);
            match r {
                None => rs.len() == 0 || fs.len() == 0,
                Some(check) => rs.len() > 0 && fs.len() > 0
                    && crate::memory::reflection_views(check.observations@) == rs && fact_views(
                    check.facts@,
                ) == fs && check.request@ == json_question(
                    memory_model_of(content_view(config)),
                    signal_prompt(fs, rs),
                ),
            }
        }),
{
    let f = |x: &Reflection| -> (c: bool)
        ensures
            c == (x@.status != "archived"@),
        { !same_text(x.status.as_str(), "archived") };
    let observations = select(
        store.get_reflections(),
        f,
        Ghost(|r: ReflectionView| r.status != "archived"@),
    );
    proof {
        assert(crate::memory::reflection_views(observations@).len() == observations@.len());
    }
    if observations.len() == 0 {
        return None;
    }
    let facts = store.get_pending_signal_facts(5, SIGNAL_FACTS);
    proof {
        assert(fact_views(facts@).len() == facts@.len());
    }
    if facts.len() == 0 {
        return None;
    }
    proof {
        reveal_strlit("{NEW_FACTS}");
        reveal_strlit("{EXISTING_OBSERVATIONS}");
    }
    let a = replace(
        SIGNAL_DETECTION_PROMPT,
        "{NEW_FACTS}",
        signal_facts_text(&facts).as_str(),
    );
    let prompt = replace(
        a.as_str(),
        "{EXISTING_OBSERVATIONS}",
        observations_text(&observations).as_str(),
    );
    let request = json_question_request(memory_model(config).as_str(), prompt.as_str());
    Some(SignalCheck { observations, facts, request })
}

/// The weight of a signal on a reflection of this status; half on a pending one.
pub open spec fn weight_of(signal: Seq<char>, status: Seq<char>) -> Option<i64> {
    if signal == "reinforces"@ {
        Some(
            if status == "pending"@ {
                (USER_FACT_REINFORCE_DELTA / 2) as i64
            } else {
                USER_FACT_REINFORCE_DELTA
            },
        )
    } else if signal == "negates"@ {
        Some(
            if status == "pending"@ {
                (-(USER_FACT_NEGATE_DELTA / 2)) as i64
            } else {
                (-USER_FACT_NEGATE_DELTA) as i64
            },
        )
    } else {
        None
    }
}

/// The signal of an item of the answer: on a reflection that was shown, and of a
/// known weight.
pub open spec fn signal_in(item: JsonView, observations: Seq<ReflectionView>) -> Option<
    (Seq<char>, i64),
> {
    let id = item.text_or("target_id"@, ""@);
    match place_of(observations, id, 0) {
        None => None,
        Some(i) => match weight_of(item.text_or("signal"@, ""@), observations[i].status) {
            Some(w) => Some((id, w)),
            None => None,
        },
    }
}

/// The store after the signals of the first `n` items.
pub open spec fn signals_upto(
    s: StoreView,
    items: Seq<JsonView>,
    observations: Seq<ReflectionView>,
    now: Seq<char>,
    n: int,
) -> StoreView
    decreases n,
{
    if n <= 0 {
        s
    } else {
        let before = signals_upto(s, items, observations, now, n - 1);
        match signal_in(items[n - 1], observations) {
            Some((id, w)) => before.with_signal(id, w, now),
            None => before,
        }
    }
}

/// How many of the first `n` items have a signal.
pub open spec fn signals_count(
    items: Seq<JsonView>,
    observations: Seq<ReflectionView>,
    n: int,
) -> nat
    decreases n,
{
    if n <= 0 {
        0
    } else {
        signals_count(items, observations, n - 1) + if signal_in(
            items[n - 1],
            observations,
        ) is Some {
            1nat
        } else {
            0nat
        }
    }
}

/// The items of an answer.
pub open spec fn signal_items(v: JsonView) -> Seq<JsonView> {
    match v.items_at("signals"@) {
        Some(items) => items,
        None => Seq::empty(),
    }
}

/// The weight of a signal on a reflection of this status.
pub fn signal_weight(signal: &str, status: &str) -> (r: Option<i64>)
    ensures
        r == weight_of(signal@, status@),
{
    let pending = same_text(status, "pending");
    if same_text(signal, "reinforces") {
        Some(
            if pending {
                USER_FACT_REINFORCE_DELTA / 2
            } else {
                USER_FACT_REINFORCE_DELTA
            },
        )
    } else if same_text(signal, "negates") {
        Some(
            if pending {
                -(USER_FACT_NEGATE_DELTA / 2)
            } else {
                -USER_FACT_NEGATE_DELTA
            },
        )
    } else {
        None
    }
}

fn read_signal(item: &Json, observations: &Vec<Reflection>) -> (r: Option<(String, i64)>)
    ensures
        match r {
            Some(x) => signal_in(item@, crate::memory::reflection_views(observations@)) == Some(
                (x.0@, x.1),
            ),
            None => signal_in(item@, crate::memory::reflection_views(observations@)) is None,
        },
{
    let id = item.text_or("target_id", "");
    let word = item.text_or("signal", "");
    match crate::reflections::find_reflection(observations, id.as_str()) {
        None => None,
        Some(i) => {
            proof {
                assert(crate::memory::reflection_views(observations@)[i as int]
                    == observations@[i as int]@);
            }
            match signal_weight(word.as_str(), observations[i].status.as_str()) {
                Some(w) => Some((id, w)),
                None => None,
            }
        },
    }
}

/// Lets the signals of these items act on the store at `now`; counts those that did
/// and the items that have none.
pub fn apply_signals(
    store: &mut MemoryStore,
    observations: &Vec<Reflection>,
    items: &Vec<Json>,
    now: &str,
) -> (r: (usize, usize))
    ensures
        final(store)@ == signals_upto(
            old(store)@,
            json_views(items@),
            crate::memory::reflection_views(observations@),
            now@,
            items@.len() as int,
        ),
        r.0 == signals_count(
            json_views(items@),
            crate::memory::reflection_views(observations@),
            items@.len() as int,
        ),
        r.0 + r.1 == items@.len(),
{
    let ghost first = store@;
    let ghost all = json_views(items@);
    let ghost rs = crate::memory::reflection_views(observations@);
    let mut applied: usize = 0;
    let mut skipped: usize = 0;
    let mut i: usize = 0;
    while i < items.len()
        invariant
            i <= items.len(),
            all == json_views(items@),
            rs == crate::memory::reflection_views(observations@),
            applied + skipped == i,
            store@ == signals_upto(first, all, rs, now@, i as int),
            applied == signals_count(all, rs, i as int),
        decreases items.len() - i,
    {
        proof {
            assert(all[i as int] == items@[i as int]@);
        }
        match read_signal(&items[i], observations) {
            Some((id, w)) => {
                store.apply_signal_at(id.as_str(), w, now);
                applied = applied + 1;
            },
            None => {
                skipped = skipped + 1;
            },
        }
        i = i + 1;
    }
    (applied, skipped)
}

/// Lets the signals of an answer act on the store at `now`, and marks the facts as
/// held against the reflections, whether they gave a signal or not; counts the
/// signals and the items that have none.
pub fn detect_signals(
    store: &mut MemoryStore,
    observations: &Vec<Reflection>,
    facts: &Vec<Fact>,
    content: &str,
    now: &str,
) -> (r: Result<(usize, usize), String>)
    ensures
        ({
            let s = old(store)@;
            let rs = crate::memory::reflection_views(observations@);
            let ids = ids_of(fact_views(facts@));
            match json_read(unfenced_lines(content@)) {
                Err(e) => r matches Err(t) && t@ == "信号解析失败: "@ + e && final(store)@ == s,
                Ok(v) => {
                    let items = signal_items(v);
                    let n = items.len() as int;
                    r matches Ok(c) && c.0 == signals_count(items, rs, n) && c.0 + c.1 == n
                        && final(store)@ == signals_upto(s, items, rs, now@, n).with_marks(
                        ids,
                        "signals_checked"@,
                    )
                },
            }
        }),
{
    let cleaned = strip_markdown_fence(content);
    match read_json(cleaned.as_str()) {
        Err(e) => {
            let mut out = "信号解析失败: ".to_string();
            out.append(e.as_str());
            Err(out)
        },
        Ok(v) => {
            let counts = match v.items_at("signals") {
                Some(items) => apply_signals(store, observations, items, now),
                None => (0, 0),
            };
            let ids = fact_ids(facts);
            let _ = store.mark_facts_signals_checked(&ids);
            Ok(counts)
        },
    }
}

/// A signal on a reflection that was not shown has no effect.
pub proof fn law_unknown_target_ignored(item: JsonView, observations: Seq<ReflectionView>)
    requires
        forall|i: int|
            0 <= i < observations.len() ==> (#[trigger] observations[i]).id != item.text_or(
                "target_id"@,
                ""@,
            ),
    ensures
        signal_in(item, observations) is None,
{
    crate::reflections::lemma_place_of(observations, item.text_or("target_id"@, ""@), 0);
}

/// A contradiction weighs twice as much as support, and a signal on a pending
/// reflection half as much as on another.
pub proof fn law_signal_weights(status: Seq<char>)
    requires
        status != "pending"@,
    ensures
        weight_of("negates"@, status) == Some((-2 * weight_of("reinforces"@, status)->0) as i64),
        weight_of("reinforces"@, status)->0 == 2 * weight_of("reinforces"@, "pending"@)->0,
        weight_of("negates"@, status)->0 == 2 * weight_of("negates"@, "pending"@)->0,
{
    reveal_strlit("negates");
    reveal_strlit("reinforces");
    assert("negates"@.len() == 7 && "reinforces"@.len() == 10);
}

} // verus!
