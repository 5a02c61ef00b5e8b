//! Facts that may say the same: finding them, asking what to do with them, and doing
//! it.

use crate::chat::{json_question, json_question_request, number, whole_number};
use crate::config::{content_view, memory_model, memory_model_of};
use crate::json::{json_read, json_views, lemma_json_view, read_json, Json, JsonView};
use crate::memory::{
    facts_broken, same_outcome, Fact, FactView, MemoryStore, StoreView,
};
use crate::memory_prompts::FACT_DEDUP_PROMPT;
use crate::order::{at_most, is_text_before, select, shorten, sorted_by, stable_sort, text_before};
use crate::proactive::{dice, similarity, Ratio};
use crate::text::{
    cut_back, cut_front, decimal, decimal_u64, head, join, joined, replace, replaced, same_text,
    take_chars, trim, trim_end_text, trim_start_text, trimmed, views,
};
use vstd::prelude::*;

verus! {

// ---------------------------------------------------------------------------
// Candidates
// ---------------------------------------------------------------------------

/// Two places in a list of facts, with the similarity of the texts there.
pub struct Pair {
    pub ratio: Ratio,
    pub i: usize,
    pub j: usize,
}

/// The contents of a pair: the similarity as a fraction, and the places.
pub struct PairView {
    pub num: int,
    pub den: int,
    pub i: int,
    pub j: int,
}

impl View for Pair {
    type V = PairView;

    open spec fn view(&self) -> PairView {
        PairView {
            num: self.ratio.num as int,
            den: self.ratio.den as int,
            i: self.i as int,
            j: self.j as int,
        }
    }
}

/// The contents of each pair.
pub open spec fn pair_views(v: Seq<Pair>) -> Seq<PairView> {
    v.map_values(|p: Pair| p@)
}

/// Whether the facts at two places may say the same: they are two, about one
/// entity, and more than half similar.
pub open spec fn may_be_same(a: FactView, b: FactView) -> bool {
    a.entity == b.entity && a.id != b.id && 100 * dice(a.text, b.text).0 > 50 * dice(
        a.text,
        b.text,
    ).1
}

/// The pair of two places.
pub open spec fn pair_of(facts: Seq<FactView>, i: int, j: int) -> PairView {
    PairView {
        num: dice(facts[i].text, facts[j].text).0,
        den: dice(facts[i].text, facts[j].text).1,
        i,
        j,
    }
}

/// The pairs of `i` with the places behind it and before `upto`.
pub open spec fn row(facts: Seq<FactView>, i: int, upto: int) -> Seq<PairView>
    decreases upto - i,
{
    if upto <= i + 1 {
        Seq::empty()
    } else {
        let rest = row(facts, i, upto - 1);
        if may_be_same(facts[i], facts[upto - 1]) {
            rest.push(pair_of(facts, i, upto - 1))
        } else {
            rest
        }
    }
}

/// The pairs of the first `n` places with those behind them.
pub open spec fn rows(facts: Seq<FactView>, n: int) -> Seq<PairView>
    decreases n,
{
    if n <= 0 {
        Seq::empty()
    } else {
        rows(facts, n - 1) + row(facts, n - 1, facts.len() as int)
    }
}

/// Whether two pairs have a place in common.
pub open spec fn overlap(p: PairView, q: PairView) -> bool {
    p.i == q.i || p.i == q.j || p.j == q.i || p.j == q.j
}

/// The pairs without those that have a place in common with one before them that
/// is kept.
pub open spec fn disjoint_pairs(pairs: Seq<PairView>) -> Seq<PairView>
    decreases pairs.len(),
{
    if pairs.len() == 0 {
        Seq::empty()
    } else {
        let kept = disjoint_pairs(pairs.drop_last());
        let p = pairs.last();
        if exists|k: int| 0 <= k < kept.len() && overlap(#[trigger] kept[k], p) {
            kept
        } else {
            kept.push(p)
        }
    }
}

/// The order of pairs: the more similar first.
pub open spec fn pair_before(a: PairView, b: PairView) -> bool {
    a.num * b.den > b.num * a.den
}

/// The pairs that are asked about: the most similar ones, each place once, as many
/// as asked for and one at least.
pub open spec fn chosen_pairs(facts: Seq<FactView>, max_pairs: int) -> Seq<PairView> {
    at_most(
        disjoint_pairs(
            sorted_by(
                rows(facts, facts.len() as int),
                |a: PairView, b: PairView| pair_before(a, b),
            ),
        ),
        if max_pairs < 1 {
            1
        } else {
            max_pairs
        },
    )
}

/// The older and the newer of two facts; of one age, in their order.
pub open spec fn by_age(a: FactView, b: FactView) -> (FactView, FactView) {
    if text_before(b.created_at, a.created_at) {
        (b, a)
    } else {
        (a, b)
    }
}

/// The contents of pairs of facts.
pub open spec fn couple_views(v: Seq<(Fact, Fact)>) -> Seq<(FactView, FactView)> {
    v.map_values(|c: (Fact, Fact)| (c.0@, c.1@))
}

/// The facts that are asked about, the older one of each pair first.
pub open spec fn candidates(facts: Seq<FactView>, max_pairs: int) -> Seq<(FactView, FactView)> {
    chosen_pairs(facts, max_pairs).map_values(|p: PairView| by_age(facts[p.i], facts[p.j]))
}

fn find_pairs(facts: &Vec<Fact>) -> (r: Vec<Pair>)
    ensures
        pair_views(r@) == rows(crate::memory::fact_views(facts@), facts@.len() as int),
        forall|k: int| 0 <= k < r@.len() ==> (#[trigger] r@[k]).i < facts@.len() && r@[k].j
            < facts@.len(),
{
    let ghost all = crate::memory::fact_views(facts@);
    let mut out: Vec<Pair> = Vec::new();
    let mut i: usize = 0;
    proof {
        assert(pair_views(out@) =~= rows(all, 0));
    }
    while i < facts.len()
        invariant
            i <= facts.len(),
            all == crate::memory::fact_views(facts@),
            pair_views(out@) == rows(all, i as int),
            forall|k: int| 0 <= k < out@.len() ==> (#[trigger] out@[k]).i < facts@.len()
                && out@[k].j < facts@.len(),
        decreases facts.len() - i,
    {
        let ghost before = pair_views(out@);
        let mut j: usize = i + 1;
        proof {
            assert(pair_views(out@) =~= before + row(all, i as int, i + 1));
        }
        while j < facts.len()
            invariant
                i < j <= facts.len(),
                all == crate::memory::fact_views(facts@),
                pair_views(out@) == before + row(all, i as int, j as int),
                forall|k: int| 0 <= k < out@.len() ==> (#[trigger] out@[k]).i < facts@.len()
                    && out@[k].j < facts@.len(),
            decreases facts.len() - j,
        {
            proof {
                assert(all[i as int] == facts@[i as int]@);
                assert(all[j as int] == facts@[j as int]@);
            }
            let ghost so_far = pair_views(out@);
            if same_text(facts[i].entity.as_str(), facts[j].entity.as_str()) && !same_text(
                facts[i].id.as_str(),
                facts[j].id.as_str(),
            ) {
                let ratio = similarity(facts[i].text.as_str(), facts[j].text.as_str());
                if ratio.more_than(50) {
                    let p = Pair { ratio, i, j };
                    let ghost said = p@;
                    out.push(p);
                    proof {
                        assert(pair_views(out@) =~= so_far.push(said));
                        assert(said == pair_of(all, i as int, j as int));
                        assert(before + row(all, i as int, j as int).push(said) =~= (before + row(
                            all,
                            i as int,
                            j as int,
                        )).push(said));
                    }
                }
            }
            j = j + 1;
        }
        i = i + 1;
    }
    out
}

fn share_place(p: &Pair, q: &Pair) -> (r: bool)
    ensures
        r == overlap(p@, q@),
{
    p.i == q.i || p.i == q.j || p.j == q.i || p.j == q.j
}

fn keep_disjoint(pairs: Vec<Pair>, Ghost(n): Ghost<int>) -> (r: Vec<Pair>)
    requires
        forall|k: int| 0 <= k < pairs@.len() ==> (#[trigger] pairs@[k]).i < n && pairs@[k].j < n,
    ensures
        pair_views(r@) == disjoint_pairs(pair_views(pairs@)),
        forall|k: int| 0 <= k < r@.len() ==> (#[trigger] r@[k]).i < n && r@[k].j < n,
{
    let ghost all = pair_views(pairs@);
    let mut kept: Vec<Pair> = Vec::new();
    let mut i: usize = 0;
    proof {
        assert(pair_views(kept@) =~= disjoint_pairs(all.take(0)));
    }
    while i < pairs.len()
        invariant
            i <= pairs.len(),
            all == pair_views(pairs@),
            forall|k: int| 0 <= k < pairs@.len() ==> (#[trigger] pairs@[k]).i < n && pairs@[k].j
                < n,
            forall|k: int| 0 <= k < kept@.len() ==> (#[trigger] kept@[k]).i < n && kept@[k].j < n,
            pair_views(kept@) == disjoint_pairs(all.take(i as int)),
        decreases pairs.len() - i,
    {
        let ghost before = pair_views(kept@);
        proof {
            assert(all.take(i + 1).drop_last() =~= all.take(i as int));
            assert(all.take(i + 1).last() == pairs@[i as int]@);
        }
        let mut taken: bool = false;
        let mut k: usize = 0;
        while k < kept.len() && !taken
            invariant
                k <= kept.len(),
                i < pairs.len(),
                before == pair_views(kept@),
                taken == exists|m: int|
                    0 <= m < k && overlap(#[trigger] before[m], pairs@[i as int]@),
            decreases kept.len() - k,
        {
            proof {
                assert(before[k as int] == kept@[k as int]@);
            }
            if share_place(&kept[k], &pairs[i]) {
                taken = true;
                assert(overlap(before[k as int], pairs@[i as int]@));
            }
            k = k + 1;
        }
        if !taken {
            let p = Pair { ratio: pairs[i].ratio, i: pairs[i].i, j: pairs[i].j };
            let ghost said = p@;
            kept.push(p);
            proof {
                assert(pair_views(kept@) =~= before.push(said));
            }
        }
        i = i + 1;
    }
    proof {
        assert(all.take(i as int) =~= all);
    }
    kept
}

/// What a sort of pairs holds, the list held.
proof fn lemma_sorted_places(before: Seq<Pair>, after: Seq<Pair>, n: int)
    requires
        pair_views(after) == sorted_by(
            pair_views(before),
            |a: PairView, b: PairView| pair_before(a, b),
        ),
        forall|k: int| 0 <= k < before.len() ==> (#[trigger] before[k]).i < n && before[k].j < n,
    ensures
        forall|k: int| 0 <= k < after.len() ==> (#[trigger] after[k]).i < n && after[k].j < n,
{
    let all = pair_views(before);
    assert forall|k: int| 0 <= k < after.len() implies (#[trigger] after[k]).i < n && after[k].j
        < n by {
        let x = pair_views(after)[k];
        assert(x == after[k]@);
        crate::order::lemma_sort_contains(
            all,
            |a: PairView, b: PairView| pair_before(a, b),
            x,
        );
        let m = choose|m: int| 0 <= m < all.len() && all[m] == x;
        assert(all[m] == before[m]@);
    }
}

impl MemoryStore {
    /// Pairs of facts that may say the same, the older one of each first.
    pub fn find_dedup_candidates(&self, max_pairs: usize) -> (r: Vec<(Fact, Fact)>)
        ensures
            couple_views(r@) == candidates(self@.all_facts(), max_pairs as int),
    {
        let facts = self.get_facts();
        let ghost all = crate::memory::fact_views(facts@);
        let pairs = find_pairs(&facts);
        let ghost listed = pairs@;
        let f = |a: &Pair, b: &Pair| -> (c: bool)
            ensures
                c == pair_before(a@, b@),
            { a.ratio.exceeds(b.ratio) };
        let sorted = stable_sort(pairs, f, Ghost(|a: PairView, b: PairView| pair_before(a, b)));
        proof {
            lemma_sorted_places(listed, sorted@, facts@.len() as int);
        }
        let disjoint = keep_disjoint(sorted, Ghost(facts@.len() as int));
        let limit: usize = if max_pairs < 1 {
            1
        } else {
            max_pairs
        };
        let ghost said = pair_views(disjoint@);
        let top = shorten(disjoint, limit);
        let ghost chosen = chosen_pairs(all, max_pairs as int);
        proof {
            assert(pair_views(top@) =~= at_most(said, limit as int));
            assert(pair_views(top@) == chosen);
        }
        let ghost goal = candidates(all, max_pairs as int);
        let mut out: Vec<(Fact, Fact)> = Vec::new();
        let mut k: usize = 0;
        while k < top.len()
            invariant
                k <= top.len(),
                all == crate::memory::fact_views(facts@),
                chosen == pair_views(top@),
                goal == chosen.map_values(|p: PairView| by_age(all[p.i], all[p.j])),
                forall|m: int| 0 <= m < top@.len() ==> (#[trigger] top@[m]).i < facts@.len()
                    && top@[m].j < facts@.len(),
                couple_views(out@) =~= goal.take(k as int),
            decreases top.len() - k,
        {
            let i: usize = top[k].i;
            let j: usize = top[k].j;
            let ghost before = couple_views(out@);
            proof {
                assert(chosen[k as int] == top@[k as int]@);
                assert(all[i as int] == facts@[i as int]@);
                assert(all[j as int] == facts@[j as int]@);
            }
            let couple = if is_text_before(
                facts[j].created_at.as_str(),
                facts[i].created_at.as_str(),
            ) {
                (facts[j].copy(), facts[i].copy())
            } else {
                (facts[i].copy(), facts[j].copy())
            };
            let ghost pair = (couple.0@, couple.1@);
            out.push(couple);
            proof {
                assert(couple_views(out@) =~= before.push(pair));
                assert(goal.take(k + 1) =~= goal.take(k as int).push(goal[k as int]));
            }
            k = k + 1;
        }
        proof {
            assert(goal.take(k as int) =~= goal);
        }
        out
    }
}

/// Every pair that is listed joins two places, the first before the second, of
/// facts that may say the same.
pub proof fn lemma_rows(facts: Seq<FactView>, n: int, p: PairView)
    requires
        n <= facts.len(),
        rows(facts, n).contains(p),
    ensures
        0 <= p.i < p.j < facts.len(),
        may_be_same(facts[p.i], facts[p.j]),
    decreases n,
{
    if n > 0 {
        let a = rows(facts, n - 1);
        let b = row(facts, n - 1, facts.len() as int);
        let k = choose|k: int| 0 <= k < (a + b).len() && (a + b)[k] == p;
        if k < a.len() {
            assert(a[k] == p);
            lemma_rows(facts, n - 1, p);
        } else {
            assert(b[k - a.len()] == p);
            lemma_row(facts, n - 1, facts.len() as int, p);
        }
    }
}

proof fn lemma_row(facts: Seq<FactView>, i: int, upto: int, p: PairView)
    requires
        0 <= i,
        upto <= facts.len(),
        row(facts, i, upto).contains(p),
    ensures
        p.i == i,
        i < p.j < upto,
        may_be_same(facts[p.i], facts[p.j]),
    decreases upto - i,
{
    if upto > i + 1 {
        let rest = row(facts, i, upto - 1);
        if rest.contains(p) {
            lemma_row(facts, i, upto - 1, p);
        } else {
            crate::order::lemma_push_contains(rest, pair_of(facts, i, upto - 1), p);
        }
    }
}

pub proof fn lemma_disjoint(pairs: Seq<PairView>)
    ensures
        forall|a: int, b: int|
            0 <= a < b < disjoint_pairs(pairs).len() ==> !overlap(
                #[trigger] disjoint_pairs(pairs)[a],
                #[trigger] disjoint_pairs(pairs)[b],
            ),
        forall|a: int|
            0 <= a < disjoint_pairs(pairs).len() ==> pairs.contains(
                #[trigger] disjoint_pairs(pairs)[a],
            ),
    decreases pairs.len(),
{
    if pairs.len() > 0 {
        let rest = pairs.drop_last();
        let kept = disjoint_pairs(rest);
        let all = disjoint_pairs(pairs);
        lemma_disjoint(rest);
        assert forall|a: int, b: int| 0 <= a < b < all.len() implies !overlap(
            #[trigger] all[a],
            #[trigger] all[b],
        ) by {
            assert(all[a] == kept[a]);
            if b < kept.len() {
                assert(all[b] == kept[b]);
            }
        }
        assert forall|a: int| 0 <= a < all.len() implies pairs.contains(#[trigger] all[a]) by {
            if a < kept.len() {
                assert(all[a] == kept[a]);
                let k = choose|k: int| 0 <= k < rest.len() && rest[k] == kept[a];
                assert(pairs[k] == kept[a]);
            } else {
                assert(all[a] == pairs[pairs.len() - 1]);
            }
        }
    }
}

/// A fact is asked about in one pair at most, and the facts of a pair are two, about
/// one entity, and more than half similar.
pub proof fn law_candidates(facts: Seq<FactView>, max_pairs: int)
    ensures
        forall|a: int, b: int|
            0 <= a < b < chosen_pairs(facts, max_pairs).len() ==> !overlap(
                #[trigger] chosen_pairs(facts, max_pairs)[a],
                #[trigger] chosen_pairs(facts, max_pairs)[b],
            ),
        forall|a: int|
            0 <= a < chosen_pairs(facts, max_pairs).len() ==> {
                let p = #[trigger] chosen_pairs(facts, max_pairs)[a];
                0 <= p.i < p.j < facts.len() && may_be_same(facts[p.i], facts[p.j])
            },
{
    let before = |a: PairView, b: PairView| pair_before(a, b);
    let all = rows(facts, facts.len() as int);
    let sorted = sorted_by(all, before);
    let d = disjoint_pairs(sorted);
    lemma_disjoint(sorted);
    let chosen = chosen_pairs(facts, max_pairs);
    assert forall|a: int, b: int| 0 <= a < b < chosen.len() implies !overlap(
        #[trigger] chosen[a],
        #[trigger] chosen[b],
    ) by {
        assert(chosen[a] == d[a] && chosen[b] == d[b]);
    }
    assert forall|a: int| 0 <= a < chosen.len() implies {
        let p = #[trigger] chosen[a];
        0 <= p.i < p.j < facts.len() && may_be_same(facts[p.i], facts[p.j])
    } by {
        assert(chosen[a] == d[a]);
        assert(sorted.contains(d[a]));
        crate::order::lemma_sort_contains(all, before, d[a]);
        lemma_rows(facts, facts.len() as int, d[a]);
    }
}

// ---------------------------------------------------------------------------
// The question
// ---------------------------------------------------------------------------

/// The most pairs that are asked about at once.
pub const DEDUP_BATCH: usize = 10;

/// A pair as it stands in the question.
pub open spec fn couple_text(n: int, c: (FactView, FactView)) -> Seq<char> {
    decimal(n) + ".\nexisting("@ + c.0.id + "): "@ + c.0.text + "\ncandidate("@ + c.1.id + "): "@
        + c.1.text
}

/// The pairs as they stand in the question, numbered from 1.
pub open spec fn couple_texts(cs: Seq<(FactView, FactView)>) -> Seq<Seq<char>> {
    Seq::new(cs.len(), |i: int| couple_text(i + 1, cs[i]))
}

/// The question what to do with each pair.
pub open spec fn dedup_prompt(cs: Seq<(FactView, FactView)>) -> Seq<char> {
    replaced(
        replaced(FACT_DEDUP_PROMPT@, "{COUNT}"@, decimal(cs.len() as int)),
        "{PAIRS}"@,
        joined(couple_texts(cs), "\n"@),
    )
}

fn write_couple(n: usize, e: &Fact, c: &Fact) -> (r: String)
    ensures
        r@ == couple_text(n as int, (e@, c@)),
{
    let mut out = decimal_u64(n as u64);
    out.append(".\nexisting(");
    out.append(e.id.as_str());
    out.append("): ");
    out.append(e.text.as_str());
    out.append("\ncandidate(");
    out.append(c.id.as_str());
    out.append("): ");
    out.append(c.text.as_str());
    out
}

fn write_prompt(pairs: &Vec<(Fact, Fact)>) -> (r: String)
    ensures
        r@ == dedup_prompt(couple_views(pairs@)),
{
    let ghost all = couple_views(pairs@);
    let ghost goal = couple_texts(all);
    let mut texts: Vec<String> = Vec::new();
    let mut i: usize = 0;
    while i < pairs.len()
        invariant
            i <= pairs.len(),
            all == couple_views(pairs@),
            goal == couple_texts(all),
            views(texts@) =~= goal.take(i as int),
        decreases pairs.len() - i,
    {
        let ghost before = views(texts@);
        let text = write_couple(i + 1, &pairs[i].0, &pairs[i].1);
        texts.push(text);
        proof {
            assert(all[i as int] == (pairs@[i as int].0@, pairs@[i as int].1@));
            assert(views(texts@) =~= before.push(text@));
            assert(goal.take(i + 1) =~= goal.take(i as int).push(goal[i as int]));
        }
        i = i + 1;
    }
    proof {
        assert(goal.take(i as int) =~= goal);
        reveal_strlit("{COUNT}");
        reveal_strlit("{PAIRS}");
    }
    let counted = replace(
        FACT_DEDUP_PROMPT,
        "{COUNT}",
        decimal_u64(pairs.len() as u64).as_str(),
    );
    replace(counted.as_str(), "{PAIRS}", join(&texts, "\n").as_str())
}

impl MemoryStore {
    /// The pairs that are asked about, and the request that asks the model for work on
    /// the memory; nothing where there are none.
    pub fn dedup_request(&self, config: Option<&str>) -> (r: Option<(Vec<(Fact, Fact)>, Json)>)
        ensures
            ({
                let cs = candidates(self@.all_facts(), DEDUP_BATCH as int);
                match r {
                    None => cs.len() == 0,
                    Some((pairs, body)) => cs.len() > 0 && couple_views(pairs@) == cs && body@
                        == json_question(memory_model_of(content_view(config)), dedup_prompt(cs)),
                }
            }),
    {
        let pairs = self.find_dedup_candidates(DEDUP_BATCH);
        proof {
            assert(couple_views(pairs@).len() == pairs@.len());
        }
        if pairs.len() == 0 {
            return None;
        }
        let prompt = write_prompt(&pairs);
        let model = memory_model(config);
        let body = json_question_request(model.as_str(), prompt.as_str());
        Some((pairs, body))
    }
}

// ---------------------------------------------------------------------------
// The answer
// ---------------------------------------------------------------------------

/// What to do with a pair.
#[derive(Debug, Clone, Copy, PartialEq, Eq, Structural)]
pub enum Action {
    /// Keep the older fact, at the greater importance of the two.
    Merge,
    /// Keep the newer fact.
    Replace,
}

/// An answer without the code fence round it.
pub open spec fn bare_answer(content: Seq<char>) -> Seq<char> {
    trimmed(
        cut_back(cut_front(cut_front(trimmed(content), "```json"@), "```"@), "```"@),
    )
}

/// What an item of the answer decides: the place of a pair, and what to do with it.
/// What is to be kept, or names no pair, decides nothing.
pub open spec fn decision(item: JsonView, n: int) -> Option<(int, Action)> {
    match item.integer_at("index"@) {
        Some(i) => if 0 <= i < n && item.text_or("action"@, ""@) == "merge"@ {
            Some((i as int, Action::Merge))
        } else if 0 <= i < n && item.text_or("action"@, ""@) == "replace"@ {
            Some((i as int, Action::Replace))
        } else {
            None
        },
        None => None,
    }
}

/// What the items of the answer decide, in their order.
pub open spec fn decisions_in(items: Seq<JsonView>, n: int) -> Seq<(int, Action)>
    decreases items.len(),
{
    if items.len() == 0 {
        Seq::empty()
    } else {
        let rest = decisions_in(items.drop_last(), n);
        match decision(items.last(), n) {
            Some(d) => rest.push(d),
            None => rest,
        }
    }
}

/// The items of an answer: the list it is, or the one under `results`.
pub open spec fn answer_items(v: JsonView) -> Seq<JsonView> {
    match v.items() {
        Some(items) => items,
        None => match v.items_at("results"@) {
            Some(items) => items,
            None => Seq::empty(),
        },
    }
}

/// What is said of an answer that is no JSON.
pub open spec fn answer_broken(content: Seq<char>, e: Seq<char>) -> Seq<char> {
    "仲裁结果解析失败: "@ + e + "（原始: "@ + head(content, 200) + "）"@
}

/// The contents of decisions.
pub open spec fn decision_views(v: Seq<(usize, Action)>) -> Seq<(int, Action)> {
    v.map_values(|d: (usize, Action)| (d.0 as int, d.1))
}

fn decide(item: &Json, n: usize) -> (r: Option<(usize, Action)>)
    ensures
        match r {
            Some(d) => decision(item@, n as int) == Some((d.0 as int, d.1)) && d.0 < n,
            None => decision(item@, n as int) is None,
        },
{
    match item.integer_at("index") {
        None => None,
        Some(i) => {
            let action = item.text_or("action", "");
            if i < 0 || i as u64 >= n as u64 {
                None
            } else if same_text(action.as_str(), "merge") {
                Some((i as usize, Action::Merge))
            } else if same_text(action.as_str(), "replace") {
                Some((i as usize, Action::Replace))
            } else {
                None
            }
        },
    }
}

/// What the items of an answer about `n` pairs decide.
pub fn read_decisions(items: &Vec<Json>, n: usize) -> (r: Vec<(usize, Action)>)
    ensures
        decision_views(r@) == decisions_in(json_views(items@), n as int),
        forall|k: int| 0 <= k < r@.len() ==> (#[trigger] r@[k]).0 < n,
{
    let ghost all = json_views(items@);
    let mut out: Vec<(usize, Action)> = Vec::new();
    let mut i: usize = 0;
    proof {
        assert(decision_views(out@) =~= decisions_in(all.take(0), n as int));
    }
    while i < items.len()
        invariant
            i <= items.len(),
            all == json_views(items@),
            decision_views(out@) == decisions_in(all.take(i as int), n as int),
            forall|k: int| 0 <= k < out@.len() ==> (#[trigger] out@[k]).0 < n,
        decreases items.len() - i,
    {
        let ghost before = decision_views(out@);
        proof {
            assert(all.take(i + 1).drop_last() =~= all.take(i as int));
            assert(all.take(i + 1).last() == items@[i as int]@);
        }
        if let Some(d) = decide(&items[i], n) {
            out.push(d);
            proof {
                assert(decision_views(out@) =~= before.push((d.0 as int, d.1)));
            }
        }
        i = i + 1;
    }
    proof {
        assert(all.take(i as int) =~= all);
    }
    out
}

/// An answer without the code fence round it.
pub fn strip_answer(content: &str) -> (r: String)
    ensures
        r@ == bare_answer(content@),
{
    let a = trim(content);
    let b = trim_start_text(a.as_str(), "```json");
    let c = trim_start_text(b.as_str(), "```");
    let d = trim_end_text(c.as_str(), "```");
    trim(d.as_str())
}

// ---------------------------------------------------------------------------
// Carrying it out
// ---------------------------------------------------------------------------

/// Whether a document has this id.
pub open spec fn is_fact(v: JsonView, id: Seq<char>) -> bool {
    v.text_at("id"@) == Some(id)
}

/// A stored fact at the greater of its importance and `importance`; one without an
/// importance counts as zero.
pub open spec fn raised(v: JsonView, importance: i32) -> JsonView {
    let own = match v.integer_at("importance"@) {
        Some(n) => n,
        None => 0,
    };
    v.with(
        "importance"@,
        whole_number(
            if own >= importance {
                own as int
            } else {
                importance as int
            },
        ),
    )
}

/// The documents, the first one with this id raised.
pub open spec fn with_raised(items: Seq<JsonView>, id: Seq<char>, importance: i32) -> Seq<JsonView>
    decreases items.len(),
{
    if items.len() == 0 {
        items
    } else if is_fact(items[0], id) {
        seq![raised(items[0], importance)] + items.drop_first()
    } else {
        seq![items[0]] + with_raised(items.drop_first(), id, importance)
    }
}

/// The documents without those of this id.
pub open spec fn without(items: Seq<JsonView>, id: Seq<char>) -> Seq<JsonView> {
    items.filter(|v: JsonView| !is_fact(v, id))
}

/// The documents after one decision on a pair.
pub open spec fn decided(items: Seq<JsonView>, c: (FactView, FactView), action: Action) -> Seq<
    JsonView,
> {
    match action {
        Action::Merge => without(with_raised(items, c.0.id, c.1.importance), c.1.id),
        Action::Replace => without(items, c.0.id),
    }
}

/// The documents after several decisions.
pub open spec fn decided_all(
    items: Seq<JsonView>,
    cs: Seq<(FactView, FactView)>,
    ds: Seq<(int, Action)>,
) -> Seq<JsonView>
    decreases ds.len(),
{
    if ds.len() == 0 {
        items
    } else {
        decided(decided_all(items, cs, ds.drop_last()), cs[ds.last().0], ds.last().1)
    }
}

/// How many decisions are of this kind.
pub open spec fn count_of(ds: Seq<(int, Action)>, action: Action) -> nat
    decreases ds.len(),
{
    if ds.len() == 0 {
        0
    } else {
        count_of(ds.drop_last(), action) + if ds.last().1 == action {
            1nat
        } else {
            0nat
        }
    }
}

fn raise(v: Json, importance: i32) -> (r: Json)
    ensures
        r@ == raised(v@, importance),
{
    let own: i64 = match v.integer_at("importance") {
        Some(n) => n,
        None => 0,
    };
    let most: i64 = if own >= importance as i64 {
        own
    } else {
        importance as i64
    };
    v.with("importance", number(most))
}

fn has_fact_id(v: &Json, id: &str) -> (r: bool)
    ensures
        r == is_fact(v@, id@),
{
    match v.text_at("id") {
        Some(t) => same_text(t, id),
        None => false,
    }
}

fn raise_first(items: Vec<Json>, id: &str, importance: i32) -> (r: Vec<Json>)
    ensures
        json_views(r@) == with_raised(json_views(items@), id@, importance),
{
    let ghost all = json_views(items@);
    let mut out = items;
    let mut i: usize = 0;
    proof {
        assert(all.skip(0) =~= all);
        assert(all.take(0) + with_raised(all, id@, importance) =~= with_raised(
            all,
            id@,
            importance,
        ));
    }
    while i < out.len() && !has_fact_id(&out[i], id)
        invariant
            i <= out.len(),
            all == json_views(out@),
            all.take(i as int) + with_raised(all.skip(i as int), id@, importance) == with_raised(
                all,
                id@,
                importance,
            ),
        decreases out.len() - i,
    {
        proof {
            let rest = all.skip(i as int);
            assert(rest[0] == out@[i as int]@);
            assert(rest.drop_first() =~= all.skip(i + 1));
            assert(all.take(i + 1) + with_raised(all.skip(i + 1), id@, importance) =~= all.take(
                i as int,
            ) + (seq![rest[0]] + with_raised(all.skip(i + 1), id@, importance)));
        }
        i = i + 1;
    }
    if i < out.len() {
        proof {
            let rest = all.skip(i as int);
            assert(rest[0] == out@[i as int]@);
            assert(rest.drop_first() =~= all.skip(i + 1));
        }
        let ghost listed = out@;
        let v = out.remove(i);
        let ghost was = v@;
        let w = raise(v, importance);
        let ghost said = w@;
        out.insert(i, w);
        proof {
            assert(was == all[i as int]);
            assert(json_views(out@) =~= all.take(i as int) + (seq![said] + all.skip(i + 1)));
        }
    } else {
        proof {
            assert(all.skip(i as int).len() == 0);
            assert(all.take(i as int) + all.skip(i as int) =~= all);
        }
    }
    out
}

fn remove_fact(items: Vec<Json>, id: &str) -> (r: Vec<Json>)
    ensures
        json_views(r@) == without(json_views(items@), id@),
{
    let f = |v: &Json| -> (c: bool)
        ensures
            c == !is_fact(v@, id@),
        { !has_fact_id(v, id) };
    select(items, f, Ghost(|v: JsonView| !is_fact(v, id@)))
}

impl StoreView {
    /// The store after decisions on pairs of facts.
    pub open spec fn with_decisions(
        self,
        cs: Seq<(FactView, FactView)>,
        ds: Seq<(int, Action)>,
    ) -> StoreView {
        match self.facts.items() {
            Some(items) => StoreView { facts: JsonView::List(decided_all(items, cs, ds)), ..self },
            None => self,
        }
    }

    /// How many pairs were merged, replaced and kept; or that the facts are no list.
    pub open spec fn decisions_counted(
        self,
        cs: Seq<(FactView, FactView)>,
        ds: Seq<(int, Action)>,
    ) -> Result<(usize, usize, usize), Seq<char>> {
        match self.facts.items() {
            Some(_) => Ok(
                (
                    count_of(ds, Action::Merge) as usize,
                    count_of(ds, Action::Replace) as usize,
                    if cs.len() >= ds.len() {
                        (cs.len() - ds.len()) as usize
                    } else {
                        0
                    },
                ),
            ),
            None => Err(facts_broken()),
        }
    }

    /// The store after an answer on pairs of facts.
    pub open spec fn with_answer(
        self,
        cs: Seq<(FactView, FactView)>,
        content: Seq<char>,
    ) -> StoreView {
        match json_read(bare_answer(content)) {
            Ok(v) => self.with_decisions(cs, decisions_in(answer_items(v), cs.len() as int)),
            Err(_) => self,
        }
    }

    /// What an answer on pairs of facts comes to.
    pub open spec fn answer_counted(
        self,
        cs: Seq<(FactView, FactView)>,
        content: Seq<char>,
    ) -> Result<(usize, usize, usize), Seq<char>> {
        match json_read(bare_answer(content)) {
            Ok(v) => self.decisions_counted(cs, decisions_in(answer_items(v), cs.len() as int)),
            Err(e) => Err(answer_broken(content, e)),
        }
    }
}

impl MemoryStore {
    /// Carries out decisions on pairs of facts, and counts the pairs that were
    /// merged, replaced and kept.
    pub fn apply_decisions(
        &mut self,
        pairs: &Vec<(Fact, Fact)>,
        decisions: &Vec<(usize, Action)>,
    ) -> (r: Result<(usize, usize, usize), String>)
        requires
            forall|k: int| 0 <= k < decisions@.len() ==> (#[trigger] decisions@[k]).0
                < pairs@.len(),
        ensures
            same_outcome(
                r,
                old(self)@.decisions_counted(couple_views(pairs@), decision_views(decisions@)),
            ),
            final(self)@ == old(self)@.with_decisions(
                couple_views(pairs@),
                decision_views(decisions@),
            ),
    {
        let ghost cs = couple_views(pairs@);
        let ghost ds = decision_views(decisions@);
        let mut items = match self.facts_document().as_array() {
            None => {
                return Err("facts.json 不是数组".to_string());
            },
            Some(items) => crate::memory::copy_jsons(items),
        };
        let ghost first = json_views(items@);
        let mut merged: usize = 0;
        let mut replaced_count: usize = 0;
        let mut k: usize = 0;
        while k < decisions.len()
            invariant
                k <= decisions.len(),
                cs == couple_views(pairs@),
                ds == decision_views(decisions@),
                forall|m: int| 0 <= m < decisions@.len() ==> (#[trigger] decisions@[m]).0
                    < pairs@.len(),
                merged + replaced_count == k,
                merged == count_of(ds.take(k as int), Action::Merge),
                replaced_count == count_of(ds.take(k as int), Action::Replace),
                json_views(items@) == decided_all(first, cs, ds.take(k as int)),
            decreases decisions.len() - k,
        {
            let (at, action) = decisions[k];
            proof {
                assert(ds.take(k + 1).drop_last() =~= ds.take(k as int));
                assert(ds.take(k + 1).last() == ds[k as int]);
                assert(decisions@[k as int].0 < pairs@.len());
                assert(cs[at as int] == (pairs@[at as int].0@, pairs@[at as int].1@));
            }
            match action {
                Action::Merge => {
                    let up = raise_first(
                        items,
                        pairs[at].0.id.as_str(),
                        pairs[at].1.importance,
                    );
                    items = remove_fact(up, pairs[at].1.id.as_str());
                    merged = merged + 1;
                },
                Action::Replace => {
                    items = remove_fact(items, pairs[at].0.id.as_str());
                    replaced_count = replaced_count + 1;
                },
            }
            k = k + 1;
        }
        let kept: usize = if pairs.len() >= decisions.len() {
            pairs.len() - decisions.len()
        } else {
            0
        };
        let facts = Json::List(items);
        proof {
            assert(ds.take(k as int) =~= ds);
            lemma_json_view(facts);
        }
        self.save_facts(facts);
        Ok((merged, replaced_count, kept))
    }

    /// Carries out an answer on pairs of facts, and counts the pairs that were
    /// merged, replaced and kept.
    pub fn resolve_fact_dedup(&mut self, pairs: &Vec<(Fact, Fact)>, content: &str) -> (r: Result<
        (usize, usize, usize),
        String,
    >)
        ensures
            same_outcome(r, old(self)@.answer_counted(couple_views(pairs@), content@)),
            final(self)@ == old(self)@.with_answer(couple_views(pairs@), content@),
    {
        let answer = strip_answer(content);
        proof {
            assert(couple_views(pairs@).len() == pairs@.len());
        }
        match read_json(answer.as_str()) {
            Err(e) => {
                let mut out = "仲裁结果解析失败: ".to_string();
                out.append(e.as_str());
                out.append("（原始: ");
                out.append(take_chars(content, 200).as_str());
                out.append("）");
                Err(out)
            },
            Ok(v) => {
                let decisions = match v.as_array() {
                    Some(items) => read_decisions(items, pairs.len()),
                    None => match v.items_at("results") {
                        Some(items) => read_decisions(items, pairs.len()),
                        None => {
                            let none: Vec<(usize, Action)> = Vec::new();
                            proof {
                                assert(decision_views(none@) =~= decisions_in(
                                    Seq::empty(),
                                    pairs@.len() as int,
                                ));
                            }
                            none
                        },
                    },
                };
                self.apply_decisions(pairs, &decisions)
            },
        }
    }
}

/// A raised fact keeps its id.
proof fn lemma_raised_id(v: JsonView, importance: i32)
    ensures
        raised(v, importance).text_at("id"@) == v.text_at("id"@),
{
    reveal_strlit("id");
    reveal_strlit("importance");
    assert("id"@.len() == 2 && "importance"@.len() == 10);
    if v is Record {
        let own = match v.integer_at("importance"@) {
            Some(n) => n,
            None => 0,
        };
        crate::json::lemma_put_field(
            v->Record_0,
            "importance"@,
            whole_number(
                if own >= importance {
                    own as int
                } else {
                    importance as int
                },
            ),
            "id"@,
        );
    }
}

pub proof fn lemma_with_raised(items: Seq<JsonView>, id: Seq<char>, importance: i32)
    ensures
        with_raised(items, id, importance).len() == items.len(),
        forall|i: int|
            0 <= i < items.len() ==> (#[trigger] with_raised(items, id, importance)[i]).text_at(
                "id"@,
            ) == items[i].text_at("id"@),
    decreases items.len(),
{
    if items.len() > 0 {
        let rest = items.drop_first();
        lemma_with_raised(rest, id, importance);
        lemma_raised_id(items[0], importance);
        let all = with_raised(items, id, importance);
        assert forall|i: int| 0 <= i < items.len() implies (#[trigger] all[i]).text_at("id"@)
            == items[i].text_at("id"@) by {
            if i > 0 {
                assert(rest[i - 1] == items[i]);
                if is_fact(items[0], id) {
                    assert(all[i] == rest[i - 1]);
                } else {
                    assert(all[i] == with_raised(rest, id, importance)[i - 1]);
                }
            }
        }
    }
}

pub proof fn lemma_without(items: Seq<JsonView>, id: Seq<char>, v: JsonView)
    ensures
        without(items, id).contains(v) <==> items.contains(v) && !is_fact(v, id),
    decreases items.len(),
{
    reveal(Seq::filter);
    let p = |v: JsonView| !is_fact(v, id);
    if items.len() > 0 {
        let rest = items.drop_last();
        lemma_without(rest, id, v);
        assert(items =~= rest.push(items.last()));
        crate::order::lemma_push_contains(rest, items.last(), v);
        crate::order::lemma_push_contains(rest.filter(p), items.last(), v);
    }
}

/// Whether a document of the list has this id.
pub open spec fn has_fact(items: Seq<JsonView>, id: Seq<char>) -> bool {
    exists|i: int| 0 <= i < items.len() && is_fact(#[trigger] items[i], id)
}

/// After a merge the newer fact is gone and the older one is still there, and after
/// a replacement the older one is gone and the newer one is still there. No other
/// fact comes or goes.
pub proof fn law_decision_keeps_one(
    items: Seq<JsonView>,
    c: (FactView, FactView),
    id: Seq<char>,
)
    requires
        c.0.id != c.1.id,
    ensures
        !has_fact(decided(items, c, Action::Merge), c.1.id),
        !has_fact(decided(items, c, Action::Replace), c.0.id),
        id != c.1.id ==> (has_fact(decided(items, c, Action::Merge), id) <==> has_fact(items, id)),
        id != c.0.id ==> (has_fact(decided(items, c, Action::Replace), id) <==> has_fact(
            items,
            id,
        )),
{
    let up = with_raised(items, c.0.id, c.1.importance);
    lemma_with_raised(items, c.0.id, c.1.importance);
    lemma_without_ids(up, c.1.id, id);
    lemma_without_ids(items, c.0.id, id);
    if has_fact(up, id) {
        let i = choose|i: int| 0 <= i < up.len() && is_fact(#[trigger] up[i], id);
        assert(is_fact(items[i], id));
    }
    if has_fact(items, id) {
        let i = choose|i: int| 0 <= i < items.len() && is_fact(#[trigger] items[i], id);
        assert(is_fact(up[i], id));
    }
}

proof fn lemma_without_ids(items: Seq<JsonView>, gone: Seq<char>, id: Seq<char>)
    ensures
        !has_fact(without(items, gone), gone),
        id != gone ==> (has_fact(without(items, gone), id) <==> has_fact(items, id)),
{
    let rest = without(items, gone);
    if has_fact(rest, gone) {
        let i = choose|i: int| 0 <= i < rest.len() && is_fact(#[trigger] rest[i], gone);
        lemma_without(items, gone, rest[i]);
    }
    if id != gone {
        if has_fact(rest, id) {
            let i = choose|i: int| 0 <= i < rest.len() && is_fact(#[trigger] rest[i], id);
            lemma_without(items, gone, rest[i]);
            let k = choose|k: int| 0 <= k < items.len() && items[k] == rest[i];
            assert(is_fact(items[k], id));
        }
        if has_fact(items, id) {
            let i = choose|i: int| 0 <= i < items.len() && is_fact(#[trigger] items[i], id);
            lemma_without(items, gone, items[i]);
            let k = choose|k: int| 0 <= k < rest.len() && rest[k] == items[i];
            assert(is_fact(rest[k], id));
        }
    }
}

/// A raised fact has the greater importance of the two.
pub proof fn law_merge_keeps_greater_importance(v: JsonView, importance: i32, own: i64)
    requires
        v is Record,
        v.integer_at("importance"@) == Some(own),
    ensures
        raised(v, importance).integer_at("importance"@) == Some(
            if own >= importance {
                own
            } else {
                importance as i64
            },
        ),
{
    crate::json::lemma_put_field(
        v->Record_0,
        "importance"@,
        whole_number(
            if own >= importance {
                own as int
            } else {
                importance as int
            },
        ),
        "importance"@,
    );
}

/// Where nothing is decided, both facts of every pair are kept: the store stays as
/// it was.
pub proof fn law_undecided_changes_nothing(s: StoreView, cs: Seq<(FactView, FactView)>)
    ensures
        s.with_decisions(cs, Seq::empty()) == s,
{
}

} // verus!
