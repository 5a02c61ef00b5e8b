//! The memory: facts, recent turns, personas and reflections, and what is drawn
//! from them.

use crate::chat::{number, text_json, whole_number};
use crate::clock::{local_now, Now};
use crate::json::{json_views, lemma_json_view, Json, JsonView};
use crate::order::{is_text_before, sorted_by, stable_sort, text_before};
use crate::text::{
    decimal, decimal_u64, digits, head, is_empty, same_text, take_chars, trim, trimmed, views,
};
use std::collections::hash_map::DefaultHasher;
use std::hash::Hasher;
use vstd::prelude::*;
use vstd::std_specs::hash::DefaultHasherAdditionalSpecFns;

verus! {

// ---------------------------------------------------------------------------
// Facts
// ---------------------------------------------------------------------------

/// A single fact about the user, the companion or the two of them.
#[derive(Debug, Clone)]
pub struct Fact {
    pub id: String,
    pub text: String,
    pub importance: i32,
    pub entity: String,
    pub created_at: String,
    /// A reflection has drawn on it.
    pub absorbed: bool,
    /// It has been held against the reflections.
    pub signals_checked: bool,
}

/// The contents of a fact.
pub struct FactView {
    pub id: Seq<char>,
    pub text: Seq<char>,
    pub importance: i32,
    pub entity: Seq<char>,
    pub created_at: Seq<char>,
    pub absorbed: bool,
    pub signals_checked: bool,
}

impl View for Fact {
    type V = FactView;

    open spec fn view(&self) -> FactView {
        FactView {
            id: self.id@,
            text: self.text@,
            importance: self.importance,
            entity: self.entity@,
            created_at: self.created_at@,
            absorbed: self.absorbed,
            signals_checked: self.signals_checked,
        }
    }
}

impl Fact {
    /// The same fact once more.
    pub fn copy(&self) -> (r: Fact)
        ensures
            r@ == self@,
    {
        Fact {
            id: self.id.as_str().to_string(),
            text: self.text.as_str().to_string(),
            importance: self.importance,
            entity: self.entity.as_str().to_string(),
            created_at: self.created_at.as_str().to_string(),
            absorbed: self.absorbed,
            signals_checked: self.signals_checked,
        }
    }
}

/// The contents of each fact.
pub open spec fn fact_views(v: Seq<Fact>) -> Seq<FactView> {
    v.map_values(|f: Fact| f@)
}

/// A part of a stored fact: a field of a record, or an item of a list, in which
/// the parts stand in the order of their declaration.
pub open spec fn part_of(v: JsonView, key: Seq<char>, at: int) -> Option<JsonView> {
    match v {
        JsonView::Record(_) => v.get(key),
        JsonView::List(_) => v.item(at),
        _ => None,
    }
}

/// A text that must be there.
pub open spec fn text_part(part: Option<JsonView>) -> Option<Seq<char>> {
    match part {
        Some(v) => v.text(),
        None => None,
    }
}

/// A whole number that must be there, of thirty-two bits.
pub open spec fn int_part(part: Option<JsonView>) -> Option<i32> {
    match part {
        Some(v) => match v.integer() {
            Some(n) => if i32::MIN <= n <= i32::MAX {
                Some(n as i32)
            } else {
                None
            },
            None => None,
        },
        None => None,
    }
}

/// A truth value that is false where it is not there.
pub open spec fn flag_part(part: Option<JsonView>) -> Option<bool> {
    match part {
        Some(v) => v.truth(),
        None => Some(false),
    }
}

/// The fact that a document stores, if it stores one.
pub open spec fn fact_in(v: JsonView) -> Option<FactView> {
    let id = text_part(part_of(v, "id"@, 0));
    let text = text_part(part_of(v, "text"@, 1));
    let importance = int_part(part_of(v, "importance"@, 2));
    let entity = text_part(part_of(v, "entity"@, 3));
    let created_at = text_part(part_of(v, "created_at"@, 4));
    let absorbed = flag_part(part_of(v, "absorbed"@, 5));
    let signals_checked = flag_part(part_of(v, "signals_checked"@, 6));
    let too_long = v matches JsonView::List(items) && items.len() > 7;
    if id is Some && text is Some && importance is Some && entity is Some && created_at is Some
        && absorbed is Some && signals_checked is Some && !too_long {
        Some(
            FactView {
                id: id->0,
                text: text->0,
                importance: importance->0,
                entity: entity->0,
                created_at: created_at->0,
                absorbed: absorbed->0,
                signals_checked: signals_checked->0,
            },
        )
    } else {
        None
    }
}

/// The facts that a list of documents stores, in their order.
pub open spec fn facts_in(items: Seq<JsonView>) -> Seq<FactView>
    decreases items.len(),
{
    if items.len() == 0 {
        Seq::empty()
    } else {
        let rest = facts_in(items.drop_last());
        match fact_in(items.last()) {
            Some(f) => rest.push(f),
            None => rest,
        }
    }
}

fn find_part<'a>(j: &'a Json, key: &str, at: usize) -> (r: Option<&'a Json>)
    ensures
        crate::json::same_json(r, part_of(j@, key@, at as int)),
{
    proof {
        lemma_json_view(*j);
    }
    match j {
        Json::Record(_) => j.get(key),
        Json::List(_) => j.item(at),
        _ => None,
    }
}

fn find_text(j: &Json, key: &str, at: usize) -> (r: Option<String>)
    ensures
        crate::chat::same_string(r, text_part(part_of(j@, key@, at as int))),
{
    match find_part(j, key, at) {
        Some(v) => match v.as_str() {
            Some(s) => Some(s.to_string()),
            None => None,
        },
        None => None,
    }
}

fn find_int(j: &Json, key: &str, at: usize) -> (r: Option<i32>)
    ensures
        r == int_part(part_of(j@, key@, at as int)),
{
    match find_part(j, key, at) {
        Some(v) => match v.as_i64() {
            Some(n) => if i32::MIN as i64 <= n && n <= i32::MAX as i64 {
                Some(n as i32)
            } else {
                None
            },
            None => None,
        },
        None => None,
    }
}

fn find_flag(j: &Json, key: &str, at: usize) -> (r: Option<bool>)
    ensures
        r == flag_part(part_of(j@, key@, at as int)),
{
    match find_part(j, key, at) {
        Some(v) => v.as_bool(),
        None => Some(false),
    }
}

/// The fact that `j` stores, if it stores one.
pub fn read_fact(j: &Json) -> (r: Option<Fact>)
    ensures
        match r {
            Some(f) => fact_in(j@) == Some(f@),
            None => fact_in(j@) is None,
        },
{
    proof {
        lemma_json_view(*j);
    }
    if let Json::List(items) = j {
        if items.len() > 7 {
            return None;
        }
    }
    let id = find_text(j, "id", 0);
    let text = find_text(j, "text", 1);
    let importance = find_int(j, "importance", 2);
    let entity = find_text(j, "entity", 3);
    let created_at = find_text(j, "created_at", 4);
    let absorbed = find_flag(j, "absorbed", 5);
    let signals_checked = find_flag(j, "signals_checked", 6);
    match (id, text, importance, entity, created_at, absorbed, signals_checked) {
        (
            Some(id),
            Some(text),
            Some(importance),
            Some(entity),
            Some(created_at),
            Some(absorbed),
            Some(signals_checked),
        ) => Some(
            Fact { id, text, importance, entity, created_at, absorbed, signals_checked },
        ),
        _ => None,
    }
}

/// The facts that a list of documents stores, in their order.
pub fn read_facts(items: &Vec<Json>) -> (r: Vec<Fact>)
    ensures
        fact_views(r@) == facts_in(json_views(items@)),
{
    let mut out: Vec<Fact> = Vec::new();
    let ghost all = json_views(items@);
    let mut i: usize = 0;
    proof {
        assert(fact_views(out@) =~= facts_in(all.take(0)));
    }
    while i < items.len()
        invariant
            i <= items.len(),
            all == json_views(items@),
            fact_views(out@) == facts_in(all.take(i as int)),
        decreases items.len() - i,
    {
        let ghost before = fact_views(out@);
        proof {
            assert(all.take(i + 1).drop_last() =~= all.take(i as int));
            assert(all.take(i + 1).last() == items@[i as int]@);
        }
        if let Some(f) = read_fact(&items[i]) {
            out.push(f);
            proof {
                assert(fact_views(out@) =~= before.push(f@));
            }
        }
        i = i + 1;
    }
    proof {
        assert(all.take(i as int) =~= all);
    }
    out
}

/// The order of facts: those not absorbed first, then the more important, then the
/// newer.
pub open spec fn fact_before(a: FactView, b: FactView) -> bool {
    if a.absorbed != b.absorbed {
        !a.absorbed
    } else {
        weight_before(a, b)
    }
}

/// The order of facts by weight alone: the more important first, then the newer.
pub open spec fn weight_before(a: FactView, b: FactView) -> bool {
    if a.importance != b.importance {
        a.importance > b.importance
    } else {
        text_before(b.created_at, a.created_at)
    }
}

impl Fact {
    /// Whether the fact stands before `other` by weight.
    pub fn outweighs(&self, other: &Fact) -> (r: bool)
        ensures
            r == weight_before(self@, other@),
    {
        if self.importance != other.importance {
            self.importance > other.importance
        } else {
            is_text_before(other.created_at.as_str(), self.created_at.as_str())
        }
    }

    /// Whether the fact stands before `other`.
    pub fn precedes(&self, other: &Fact) -> (r: bool)
        ensures
            r == fact_before(self@, other@),
    {
        if self.absorbed != other.absorbed {
            !self.absorbed
        } else {
            self.outweighs(other)
        }
    }
}

/// Facts in their order.
pub open spec fn facts_sorted(facts: Seq<FactView>) -> Seq<FactView> {
    sorted_by(facts, |a: FactView, b: FactView| fact_before(a, b))
}

/// Facts in the order of their weight.
pub open spec fn facts_by_weight(facts: Seq<FactView>) -> Seq<FactView> {
    sorted_by(facts, |a: FactView, b: FactView| weight_before(a, b))
}

/// The order of facts compares any two of them.
pub proof fn lemma_fact_order()
    ensures
        crate::order::is_order(|a: FactView, b: FactView| fact_before(a, b)),
        crate::order::is_order(|a: FactView, b: FactView| weight_before(a, b)),
{
    assert forall|a: FactView, b: FactView| weight_before(a, b) implies !weight_before(b, a) by {
        crate::order::lemma_text_order_total(a.created_at, b.created_at);
    }
    assert forall|a: FactView, b: FactView, c: FactView|
        !weight_before(b, a) && !weight_before(c, b) implies !weight_before(c, a) by {
        if a.importance == b.importance && b.importance == c.importance {
            crate::order::lemma_text_order_transitive(c.created_at, b.created_at, a.created_at);
        }
    }
    let full = |a: FactView, b: FactView| fact_before(a, b);
    let weight = |a: FactView, b: FactView| weight_before(a, b);
    assert forall|a: FactView, b: FactView| #[trigger] full(a, b) implies !full(b, a) by {
        assert(weight_before(a, b) ==> !weight_before(b, a));
    }
    assert forall|a: FactView, b: FactView, c: FactView|
        !#[trigger] full(b, a) && !#[trigger] full(c, b) implies !full(c, a) by {
        assert(!weight_before(b, a) && !weight_before(c, b) ==> !weight_before(c, a));
    }
    assert forall|a: FactView, b: FactView| #[trigger] weight(a, b) implies !weight(b, a) by {
        assert(weight_before(a, b) ==> !weight_before(b, a));
    }
    assert forall|a: FactView, b: FactView, c: FactView|
        !#[trigger] weight(b, a) && !#[trigger] weight(c, b) implies !weight(c, a) by {
        assert(!weight_before(b, a) && !weight_before(c, b) ==> !weight_before(c, a));
    }
}

fn sort_facts(facts: Vec<Fact>) -> (r: Vec<Fact>)
    ensures
        fact_views(r@) == facts_sorted(fact_views(facts@)),
{
    let f = |a: &Fact, b: &Fact| -> (c: bool)
        ensures
            c == fact_before(a@, b@),
        { a.precedes(b) };
    stable_sort(facts, f, Ghost(|a: FactView, b: FactView| fact_before(a, b)))
}

pub(crate) fn sort_by_weight(facts: Vec<Fact>) -> (r: Vec<Fact>)
    ensures
        fact_views(r@) == facts_by_weight(fact_views(facts@)),
{
    let f = |a: &Fact, b: &Fact| -> (c: bool)
        ensures
            c == weight_before(a@, b@),
        { a.outweighs(b) };
    stable_sort(facts, f, Ghost(|a: FactView, b: FactView| weight_before(a, b)))
}

// ---------------------------------------------------------------------------
// Reflections
// ---------------------------------------------------------------------------

/// Evidence is counted in parts of this.
pub const EVIDENCE_UNIT: i64 = 1_000_000;

/// What a supporting fact adds to the evidence for a reflection.
pub const USER_FACT_REINFORCE_DELTA: i64 = 500_000;

/// What a contradicting fact adds to the evidence against a reflection.
pub const USER_FACT_NEGATE_DELTA: i64 = 1_000_000;

/// The fewest facts that a reflection is drawn from.
pub const MIN_FACTS_FOR_REFLECTION: usize = 5;

/// Days after which a pending reflection is confirmed by itself.
pub const WEAK_MEMORY_AUTO_CONFIRM_DAYS: i64 = 7;

/// Days after which a confirmed reflection is promoted by itself.
pub const WEAK_MEMORY_AUTO_PROMOTE_DAYS: i64 = 7;

/// The rank of the score from which a reflection is confirmed: 1.
pub const EVIDENCE_CONFIRMED_THRESHOLD: i64 = 0x3ff0_0000_0000_0000;

/// The rank of the score from which a reflection is promoted: 2.
pub const EVIDENCE_PROMOTED_THRESHOLD: i64 = 0x4000_0000_0000_0000;

/// The rank of the score down from which a reflection is archived: -2.
pub const EVIDENCE_ARCHIVE_THRESHOLD: i64 = -0x4000_0000_0000_0000;

/// The evidence that a reflection starts with, by the greatest importance among
/// its facts.
pub open spec fn seed_of(max_importance: i32) -> i64 {
    if max_importance == 10 {
        800_000
    } else if max_importance == 9 {
        600_000
    } else if max_importance == 8 {
        400_000
    } else if max_importance == 7 {
        200_000
    } else {
        0
    }
}

/// The evidence that a reflection starts with.
pub fn initial_reinforcement_from_importance(max_importance: i32) -> (r: i64)
    ensures
        r == seed_of(max_importance),
{
    match max_importance {
        10 => 800_000,
        9 => 600_000,
        8 => 400_000,
        7 => 200_000,
        _ => 0,
    }
}

/// What the companion has come to think, drawn from several facts.
#[derive(Debug, Clone)]
pub struct Reflection {
    pub id: String,
    pub text: String,
    pub entity: String,
    pub relation_type: String,
    pub temporal_scope: String,
    /// `pending`, `confirmed`, `promoted` or `archived`.
    pub status: String,
    /// The facts that it was drawn from.
    pub source_fact_ids: Vec<String>,
    /// The evidence for it, in parts of `EVIDENCE_UNIT`.
    pub reinforcement: i64,
    /// The evidence against it, in parts of `EVIDENCE_UNIT`.
    pub disputation: i64,
    pub rein_last_signal_at: Option<String>,
    pub disp_last_signal_at: Option<String>,
    pub created_at: String,
    pub confirmed_at: Option<String>,
}

/// The contents of a reflection.
pub struct ReflectionView {
    pub id: Seq<char>,
    pub text: Seq<char>,
    pub entity: Seq<char>,
    pub relation_type: Seq<char>,
    pub temporal_scope: Seq<char>,
    pub status: Seq<char>,
    pub source_fact_ids: Seq<Seq<char>>,
    pub reinforcement: i64,
    pub disputation: i64,
    pub rein_last_signal_at: Option<Seq<char>>,
    pub disp_last_signal_at: Option<Seq<char>>,
    pub created_at: Seq<char>,
    pub confirmed_at: Option<Seq<char>>,
}

/// The characters of a string that may be missing.
pub open spec fn opt_view(s: Option<String>) -> Option<Seq<char>> {
    match s {
        Some(s) => Some(s@),
        None => None,
    }
}

impl View for Reflection {
    type V = ReflectionView;

    open spec fn view(&self) -> ReflectionView {
        ReflectionView {
            id: self.id@,
            text: self.text@,
            entity: self.entity@,
            relation_type: self.relation_type@,
            temporal_scope: self.temporal_scope@,
            status: self.status@,
            source_fact_ids: views(self.source_fact_ids@),
            reinforcement: self.reinforcement,
            disputation: self.disputation,
            rein_last_signal_at: opt_view(self.rein_last_signal_at),
            disp_last_signal_at: opt_view(self.disp_last_signal_at),
            created_at: self.created_at@,
            confirmed_at: opt_view(self.confirmed_at),
        }
    }
}

/// The contents of each reflection.
pub open spec fn reflection_views(v: Seq<Reflection>) -> Seq<ReflectionView> {
    v.map_values(|r: Reflection| r@)
}

/// The same strings once more.
pub fn copy_strings(v: &Vec<String>) -> (r: Vec<String>)
    ensures
        views(r@) == views(v@),
{
    let mut out: Vec<String> = Vec::new();
    let mut i: usize = 0;
    while i < v.len()
        invariant
            i <= v.len(),
            views(out@) =~= views(v@).take(i as int),
        decreases v.len() - i,
    {
        let ghost before = views(out@);
        let item = v[i].as_str().to_string();
        out.push(item);
        proof {
            assert(views(out@) =~= before.push(item@));
            assert(views(v@).take(i + 1) =~= views(v@).take(i as int).push(v@[i as int]@));
        }
        i = i + 1;
    }
    proof {
        assert(views(v@).take(i as int) =~= views(v@));
    }
    out
}

fn copy_opt(s: &Option<String>) -> (r: Option<String>)
    ensures
        opt_view(r) == opt_view(*s),
{
    match s {
        Some(t) => Some(t.as_str().to_string()),
        None => None,
    }
}

impl Reflection {
    /// The same reflection once more.
    pub fn copy(&self) -> (r: Reflection)
        ensures
            r@ == self@,
    {
        Reflection {
            id: self.id.as_str().to_string(),
            text: self.text.as_str().to_string(),
            entity: self.entity.as_str().to_string(),
            relation_type: self.relation_type.as_str().to_string(),
            temporal_scope: self.temporal_scope.as_str().to_string(),
            status: self.status.as_str().to_string(),
            source_fact_ids: copy_strings(&self.source_fact_ids),
            reinforcement: self.reinforcement,
            disputation: self.disputation,
            rein_last_signal_at: copy_opt(&self.rein_last_signal_at),
            disp_last_signal_at: copy_opt(&self.disp_last_signal_at),
            created_at: self.created_at.as_str().to_string(),
            confirmed_at: copy_opt(&self.confirmed_at),
        }
    }
}

// ---------------------------------------------------------------------------
// The store
// ---------------------------------------------------------------------------

/// All that is remembered. Facts, turns and personas are kept as the documents
/// that are stored, so that what the library does not read in them stays.
pub struct MemoryStore {
    dir: String,
    facts: Json,
    recent: Json,
    persona: Json,
    reflections: Vec<Reflection>,
}

/// The contents of the store.
pub struct StoreView {
    pub dir: Seq<char>,
    pub facts: JsonView,
    pub recent: JsonView,
    pub persona: JsonView,
    pub reflections: Seq<ReflectionView>,
}

impl View for MemoryStore {
    type V = StoreView;

    closed spec fn view(&self) -> StoreView {
        StoreView {
            dir: self.dir@,
            facts: self.facts@,
            recent: self.recent@,
            persona: self.persona@,
            reflections: reflection_views(self.reflections@),
        }
    }
}

/// A document without items.
pub open spec fn empty_list() -> JsonView {
    JsonView::List(Seq::empty())
}

/// The personas where nothing is stored: three empty sections.
pub open spec fn empty_persona() -> JsonView {
    JsonView::Record(
        seq![
            ("master"@, empty_list()),
            ("neko"@, empty_list()),
            ("relationship"@, empty_list()),
        ],
    )
}

/// The document in a file; `default` where the file could not be read or is no
/// JSON.
pub open spec fn stored_or(content: Option<Seq<char>>, default: JsonView) -> JsonView {
    match content {
        Some(s) => match crate::json::json_read(s) {
            Ok(j) => j,
            Err(_) => default,
        },
        None => default,
    }
}

/// The document in a file, or `default`.
pub fn read_stored(content: Option<&str>, default: Json) -> (r: Json)
    ensures
        r@ == stored_or(crate::config::content_view(content), default@),
{
    match content {
        Some(s) => match crate::json::read_json(s) {
            Ok(j) => j,
            Err(_) => default,
        },
        None => default,
    }
}

fn no_items() -> (r: Json)
    ensures
        r@ == empty_list(),
{
    let r = Json::List(Vec::new());
    proof {
        lemma_json_view(r);
        assert(r@->List_0 =~= Seq::<JsonView>::empty());
    }
    r
}

fn no_persona() -> (r: Json)
    ensures
        r@ == empty_persona(),
{
    let r = Json::Record(
        vec![
            ("master".to_string(), no_items()),
            ("neko".to_string(), no_items()),
            ("relationship".to_string(), no_items()),
        ],
    );
    proof {
        lemma_json_view(r);
        assert(r@->Record_0 =~= empty_persona()->Record_0);
    }
    r
}

/// The items of a list; none where the document is no list.
pub open spec fn items_or_none(v: JsonView) -> Seq<JsonView> {
    match v.items() {
        Some(items) => items,
        None => Seq::empty(),
    }
}

impl StoreView {
    /// The store in which nothing is remembered.
    pub open spec fn blank(dir: Seq<char>) -> StoreView {
        StoreView {
            dir,
            facts: empty_list(),
            recent: empty_list(),
            persona: empty_persona(),
            reflections: Seq::empty(),
        }
    }

    /// The facts in their order.
    pub open spec fn all_facts(self) -> Seq<FactView> {
        facts_sorted(facts_in(items_or_none(self.facts)))
    }
}

impl MemoryStore {
    /// A store under `dir` in which nothing is remembered.
    pub fn new(dir: String) -> (r: MemoryStore)
        ensures
            r@ == StoreView::blank(dir@),
    {
        let r = MemoryStore {
            dir,
            facts: no_items(),
            recent: no_items(),
            persona: no_persona(),
            reflections: Vec::new(),
        };
        proof {
            assert(reflection_views(r.reflections@) =~= Seq::<ReflectionView>::empty());
        }
        r
    }

    /// The store under `dir`, from the contents of its files.
    pub fn load(
        dir: String,
        facts: Option<&str>,
        recent: Option<&str>,
        persona: Option<&str>,
        reflections: Vec<Reflection>,
    ) -> (r: MemoryStore)
        ensures
            r@ == (StoreView {
                dir: dir@,
                facts: stored_or(crate::config::content_view(facts), empty_list()),
                recent: stored_or(crate::config::content_view(recent), empty_list()),
                persona: stored_or(crate::config::content_view(persona), empty_persona()),
                reflections: reflection_views(reflections@),
            }),
    {
        MemoryStore {
            dir,
            facts: read_stored(facts, no_items()),
            recent: read_stored(recent, no_items()),
            persona: read_stored(persona, no_persona()),
            reflections,
        }
    }

    /// The store under `dir`, from its documents.
    pub fn from_parts(
        dir: String,
        facts: Json,
        recent: Json,
        persona: Json,
        reflections: Vec<Reflection>,
    ) -> (r: MemoryStore)
        ensures
            r@ == (StoreView {
                dir: dir@,
                facts: facts@,
                recent: recent@,
                persona: persona@,
                reflections: reflection_views(reflections@),
            }),
    {
        MemoryStore { dir, facts, recent, persona, reflections }
    }

    /// Where the store is kept.
    pub fn dir(&self) -> (r: String)
        ensures
            r@ == self@.dir,
    {
        self.dir.as_str().to_string()
    }

    /// The document of the facts.
    pub fn facts_document(&self) -> (r: &Json)
        ensures
            r@ == self@.facts,
    {
        &self.facts
    }

    /// The document of the recent turns.
    pub fn recent_document(&self) -> (r: &Json)
        ensures
            r@ == self@.recent,
    {
        &self.recent
    }

    /// The document of the personas.
    pub fn get_persona(&self) -> (r: &Json)
        ensures
            r@ == self@.persona,
    {
        &self.persona
    }

    /// The reflections.
    pub fn reflections(&self) -> (r: &Vec<Reflection>)
        ensures
            reflection_views(r@) == self@.reflections,
    {
        &self.reflections
    }

    /// Puts other reflections in the place of those that are kept.
    pub fn save_reflections(&mut self, reflections: Vec<Reflection>)
        ensures
            final(self)@ == (StoreView {
                reflections: reflection_views(reflections@),
                ..old(self)@
            }),
    {
        self.reflections = reflections;
    }

    /// Puts another document in the place of that of the facts.
    pub fn save_facts(&mut self, facts: Json)
        ensures
            final(self)@ == (StoreView { facts: facts@, ..old(self)@ }),
    {
        self.facts = facts;
    }

    /// The facts: those not absorbed first, then the more important, then the
    /// newer.
    pub fn get_facts(&self) -> (r: Vec<Fact>)
        ensures
            fact_views(r@) == self@.all_facts(),
    {
        let read = match self.facts.as_array() {
            Some(items) => read_facts(items),
            None => {
                let none: Vec<Fact> = Vec::new();
                proof {
                    assert(fact_views(none@) =~= facts_in(Seq::empty()));
                }
                none
            },
        };
        sort_facts(read)
    }

    /// The facts that no reflection has drawn on, of at least this importance.
    pub fn get_unabsorbed_facts(&self, min_importance: i32) -> (r: Vec<Fact>)
        ensures
            fact_views(r@) == self@.unabsorbed(min_importance),
    {
        let f = |a: &Fact| -> (c: bool)
            ensures
                c == (!a@.absorbed && a@.importance >= min_importance),
            { !a.absorbed && a.importance >= min_importance };
        crate::order::select(
            self.get_facts(),
            f,
            Ghost(|a: FactView| !a.absorbed && a.importance >= min_importance),
        )
    }

    /// The facts that no reflection has drawn on and that have not been held
    /// against the reflections, of at least this importance and at most `max`.
    pub fn get_pending_signal_facts(&self, min_importance: i32, max: usize) -> (r: Vec<Fact>)
        ensures
            fact_views(r@) == self@.pending_signals(min_importance, max as int),
    {
        let f = |a: &Fact| -> (c: bool)
            ensures
                c == (!a@.absorbed && !a@.signals_checked && a@.importance >= min_importance),
            { !a.absorbed && !a.signals_checked && a.importance >= min_importance };
        let all = crate::order::select(
            self.get_facts(),
            f,
            Ghost(
                |a: FactView|
                    !a.absorbed && !a.signals_checked && a.importance >= min_importance,
            ),
        );
        let ghost said = fact_views(all@);
        let r = crate::order::shorten(all, max);
        proof {
            assert(fact_views(r@) =~= crate::order::at_most(said, max as int));
        }
        r
    }
}

impl StoreView {
    /// The facts that no reflection has drawn on.
    pub open spec fn unabsorbed(self, min_importance: i32) -> Seq<FactView> {
        self.all_facts().filter(|f: FactView| !f.absorbed && f.importance >= min_importance)
    }

    /// The facts that are still to be held against the reflections.
    pub open spec fn pending_signals(self, min_importance: i32, max: int) -> Seq<FactView> {
        crate::order::at_most(
            self.all_facts().filter(
                |f: FactView|
                    !f.absorbed && !f.signals_checked && f.importance >= min_importance,
            ),
            max,
        )
    }
}

// ---------------------------------------------------------------------------
// New facts
// ---------------------------------------------------------------------------

/// The hash of a text: the standard hasher fed with its bytes and an end mark.
pub open spec fn text_hash(s: Seq<char>) -> u64 {
    DefaultHasher::spec_finish(seq![vstd::utf8::encode_utf8(s), seq![0xffu8]])
}

/// The hash of a text.
pub fn hash_text(s: &str) -> (r: u64)
    ensures
        r == text_hash(s@),
{
    let mut h = DefaultHasher::new();
    h.write(s.as_bytes());
    let end: [u8; 1] = [0xff];
    h.write(end.as_slice());
    proof {
        assert(end@ =~= seq![0xffu8]);
        assert(h@ =~= seq![vstd::utf8::encode_utf8(s@), seq![0xffu8]]);
    }
    h.finish()
}

/// The id of a fact: the time, and up to eight digits of the hash of its text.
pub open spec fn fact_id(text: Seq<char>, compact: Seq<char>) -> Seq<char> {
    "fact_"@ + compact + "_"@ + head(decimal(text_hash(text) as int), 8)
}

/// `n` moved into the range from 1 to 10.
pub open spec fn importance_of(n: i32) -> i32 {
    if n < 1 {
        1
    } else if n > 10 {
        10
    } else {
        n
    }
}

/// A new fact as it is stored.
pub open spec fn new_fact(
    text: Seq<char>,
    importance: i32,
    entity: Seq<char>,
    compact: Seq<char>,
    tee: Seq<char>,
) -> JsonView {
    JsonView::Record(
        seq![
            ("id"@, JsonView::Text(fact_id(text, compact))),
            ("text"@, JsonView::Text(text)),
            ("importance"@, whole_number(importance_of(importance) as int)),
            ("entity"@, JsonView::Text(entity)),
            ("created_at"@, JsonView::Text(tee)),
            ("absorbed"@, JsonView::Bool(false)),
            ("signals_checked"@, JsonView::Bool(false)),
        ],
    )
}

fn make_fact(text: &str, importance: i32, entity: &str, compact: &str, tee: &str) -> (r: Json)
    ensures
        r@ == new_fact(text@, importance, entity@, compact@, tee@),
{
    let mut id = "fact_".to_string();
    id.append(compact);
    id.append("_");
    let hash = decimal_u64(hash_text(text));
    id.append(take_chars(hash.as_str(), 8).as_str());
    let weight: i32 = if importance < 1 {
        1
    } else if importance > 10 {
        10
    } else {
        importance
    };
    let r = Json::Record(
        vec![
            ("id".to_string(), Json::Text(id)),
            ("text".to_string(), text_json(text)),
            ("importance".to_string(), number(weight as i64)),
            ("entity".to_string(), text_json(entity)),
            ("created_at".to_string(), text_json(tee)),
            ("absorbed".to_string(), Json::Bool(false)),
            ("signals_checked".to_string(), Json::Bool(false)),
        ],
    );
    proof {
        lemma_json_view(r);
        assert(r@->Record_0 =~= new_fact(text@, importance, entity@, compact@, tee@)->Record_0);
    }
    r
}

/// Whether a document of the list has this text.
pub open spec fn has_fact_text(items: Seq<JsonView>, text: Seq<char>) -> bool {
    exists|i: int| 0 <= i < items.len() && (#[trigger] items[i]).text_at("text"@) == Some(text)
}

/// Whether a document of `items` has this text.
fn holds_text(items: &Vec<Json>, text: &str) -> (r: bool)
    ensures
        r == has_fact_text(json_views(items@), text@),
{
    let ghost all = json_views(items@);
    let mut i: usize = 0;
    while i < items.len()
        invariant
            i <= items.len(),
            all == json_views(items@),
            forall|k: int| 0 <= k < i ==> (#[trigger] all[k]).text_at("text"@) != Some(text@),
        decreases items.len() - i,
    {
        proof {
            assert(all[i as int] == items@[i as int]@);
        }
        if let Some(t) = items[i].text_at("text") {
            if same_text(t, text) {
                assert(all[i as int].text_at("text"@) == Some(text@));
                return true;
            }
        }
        i = i + 1;
    }
    false
}

/// The same documents once more.
pub fn copy_jsons(items: &Vec<Json>) -> (r: Vec<Json>)
    ensures
        json_views(r@) == json_views(items@),
{
    let mut out: Vec<Json> = Vec::new();
    let mut i: usize = 0;
    while i < items.len()
        invariant
            i <= items.len(),
            json_views(out@) =~= json_views(items@).take(i as int),
        decreases items.len() - i,
    {
        let ghost before = json_views(out@);
        let item = items[i].copy();
        out.push(item);
        proof {
            assert(json_views(out@) =~= before.push(item@));
            assert(json_views(items@).take(i + 1) =~= json_views(items@).take(i as int).push(
                items@[i as int]@,
            ));
        }
        i = i + 1;
    }
    proof {
        assert(json_views(items@).take(i as int) =~= json_views(items@));
    }
    out
}

/// What is said of facts that are no list.
pub open spec fn facts_broken() -> Seq<char> {
    "facts.json 不是数组"@
}

/// Whether a result is the one that is said.
pub open spec fn same_outcome<T>(r: Result<T, String>, v: Result<T, Seq<char>>) -> bool {
    match r {
        Ok(x) => v == Ok::<T, Seq<char>>(x),
        Err(e) => v == Err::<T, Seq<char>>(e@),
    }
}

impl StoreView {
    /// Whether a fact of this text is taken in: it is not blank and new.
    pub open spec fn fact_accepted(self, text: Seq<char>) -> Result<bool, Seq<char>> {
        let t = trimmed(text);
        if t.len() == 0 {
            Ok(false)
        } else {
            match self.facts.items() {
                None => Err(facts_broken()),
                Some(items) => Ok(!has_fact_text(items, t)),
            }
        }
    }

    /// The store after the fact was offered: it stands behind the others if it is
    /// taken in, and else nothing has changed.
    pub open spec fn with_fact(
        self,
        text: Seq<char>,
        importance: i32,
        entity: Seq<char>,
        compact: Seq<char>,
        tee: Seq<char>,
    ) -> StoreView {
        if self.fact_accepted(text) == Ok::<bool, Seq<char>>(true) {
            StoreView {
                facts: JsonView::List(
                    items_or_none(self.facts).push(
                        new_fact(trimmed(text), importance, entity, compact, tee),
                    ),
                ),
                ..self
            }
        } else {
            self
        }
    }

    /// The store after several facts were offered one after the other.
    pub open spec fn with_facts(
        self,
        facts: Seq<(Seq<char>, i32, Seq<char>)>,
        compact: Seq<char>,
        tee: Seq<char>,
    ) -> StoreView
        decreases facts.len(),
    {
        if facts.len() == 0 {
            self
        } else {
            let f = facts.last();
            self.with_facts(facts.drop_last(), compact, tee).with_fact(f.0, f.1, f.2, compact, tee)
        }
    }

    /// How many of several facts are taken in.
    pub open spec fn facts_accepted(
        self,
        facts: Seq<(Seq<char>, i32, Seq<char>)>,
        compact: Seq<char>,
        tee: Seq<char>,
    ) -> nat
        decreases facts.len(),
    {
        if facts.len() == 0 {
            0
        } else {
            let before = self.with_facts(facts.drop_last(), compact, tee);
            self.facts_accepted(facts.drop_last(), compact, tee) + if before.fact_accepted(
                facts.last().0,
            ) == Ok::<bool, Seq<char>>(true) {
                1nat
            } else {
                0nat
            }
        }
    }
}

/// The contents of facts that are offered.
pub open spec fn offer_views(v: Seq<(String, i32, String)>) -> Seq<(Seq<char>, i32, Seq<char>)> {
    v.map_values(|f: (String, i32, String)| (f.0@, f.1, f.2@))
}

impl MemoryStore {
    /// Takes in a fact, now.
    pub fn add_fact(&mut self, text: &str, importance: i32, entity: &str) -> (r: Result<
        bool,
        String,
    >)
        ensures
            same_outcome(r, old(self)@.fact_accepted(text@)),
            exists|compact: Seq<char>, tee: Seq<char>|
                final(self)@ == #[trigger] old(self)@.with_fact(
                    text@,
                    importance,
                    entity@,
                    compact,
                    tee,
                ),
    {
        self.add_fact_at(text, importance, entity, &local_now())
    }

    /// Takes in a fact at `now`. A text that is blank or already there is not taken
    /// in.
    pub fn add_fact_at(&mut self, text: &str, importance: i32, entity: &str, now: &Now) -> (r:
        Result<bool, String>)
        ensures
            same_outcome(r, old(self)@.fact_accepted(text@)),
            final(self)@ == old(self)@.with_fact(
                text@,
                importance,
                entity@,
                now.compact@,
                now.tee@,
            ),
    {
        let t = trim(text);
        if is_empty(t.as_str()) {
            return Ok(false);
        }
        let mut items = match self.facts.as_array() {
            None => {
                return Err("facts.json 不是数组".to_string());
            },
            Some(items) => {
                if holds_text(items, t.as_str()) {
                    return Ok(false);
                }
                copy_jsons(items)
            },
        };
        let fact = make_fact(
            t.as_str(),
            importance,
            entity,
            now.compact.as_str(),
            now.tee.as_str(),
        );
        let ghost before = json_views(items@);
        let ghost said = fact@;
        items.push(fact);
        self.facts = Json::List(items);
        proof {
            lemma_json_view(self.facts);
            assert(json_views(items@) =~= before.push(said));
        }
        Ok(true)
    }

    /// Takes in several facts, now, and counts those that were taken in and the
    /// others.
    pub fn add_facts(&mut self, facts: &[(String, i32, String)]) -> (r: (usize, usize))
        ensures
            exists|compact: Seq<char>, tee: Seq<char>|
                final(self)@ == #[trigger] old(self)@.with_facts(
                    offer_views(facts@),
                    compact,
                    tee,
                ) && r.0 == old(self)@.facts_accepted(offer_views(facts@), compact, tee),
            r.0 + r.1 == facts@.len(),
    {
        self.add_facts_at(facts, &local_now())
    }

    /// Takes in several facts at `now`, and counts those that were taken in and
    /// the others.
    pub fn add_facts_at(&mut self, facts: &[(String, i32, String)], now: &Now) -> (r: (
        usize,
        usize,
    ))
        ensures
            final(self)@ == old(self)@.with_facts(offer_views(facts@), now.compact@, now.tee@),
            r.0 == old(self)@.facts_accepted(offer_views(facts@), now.compact@, now.tee@),
            r.0 + r.1 == facts@.len(),
    {
        let ghost all = offer_views(facts@);
        let ghost first = self@;
        let mut added: usize = 0;
        let mut dup: usize = 0;
        let mut i: usize = 0;
        while i < facts.len()
            invariant
                i <= facts.len(),
                all == offer_views(facts@),
                added + dup == i,
                self@ == first.with_facts(all.take(i as int), now.compact@, now.tee@),
                added == first.facts_accepted(all.take(i as int), now.compact@, now.tee@),
            decreases facts.len() - i,
        {
            proof {
                assert(all.take(i + 1).drop_last() =~= all.take(i as int));
                assert(all.take(i + 1).last() == all[i as int]);
            }
            match self.add_fact_at(facts[i].0.as_str(), facts[i].1, facts[i].2.as_str(), now) {
                Ok(true) => {
                    added = added + 1;
                },
                _ => {
                    dup = dup + 1;
                },
            }
            i = i + 1;
        }
        proof {
            assert(all.take(i as int) =~= all);
        }
        (added, dup)
    }
}

// ---------------------------------------------------------------------------
// Laws of facts
// ---------------------------------------------------------------------------

/// A fact that was taken in is not taken in again, whatever was done with its
/// importance and entity.
pub proof fn law_fact_once(
    s: StoreView,
    text: Seq<char>,
    importance: i32,
    entity: Seq<char>,
    compact: Seq<char>,
    tee: Seq<char>,
)
    requires
        s.fact_accepted(text) == Ok::<bool, Seq<char>>(true),
    ensures
        s.with_fact(text, importance, entity, compact, tee).fact_accepted(text) == Ok::<
            bool,
            Seq<char>,
        >(false),
{
    let items = items_or_none(s.facts);
    let t = trimmed(text);
    let fact = new_fact(t, importance, entity, compact, tee);
    lemma_new_fact(t, importance, entity, compact, tee);
    let after = items.push(fact);
    assert(after[items.len() as int].text_at("text"@) == Some(t));
    assert(has_fact_text(after, t));
}

/// Offering the same fact twice is offering it once.
pub proof fn law_fact_idempotent(
    s: StoreView,
    text: Seq<char>,
    importance: i32,
    entity: Seq<char>,
    compact: Seq<char>,
    tee: Seq<char>,
)
    ensures
        s.with_fact(text, importance, entity, compact, tee).with_fact(
            text,
            importance,
            entity,
            compact,
            tee,
        ) == s.with_fact(text, importance, entity, compact, tee),
{
    if s.fact_accepted(text) == Ok::<bool, Seq<char>>(true) {
        law_fact_once(s, text, importance, entity, compact, tee);
    }
}

/// What a new fact reads back as.
pub proof fn lemma_new_fact(
    text: Seq<char>,
    importance: i32,
    entity: Seq<char>,
    compact: Seq<char>,
    tee: Seq<char>,
)
    ensures
        new_fact(text, importance, entity, compact, tee).text_at("text"@) == Some(text),
        new_fact(text, importance, entity, compact, tee).text_at("id"@) == Some(
            fact_id(text, compact),
        ),
        fact_in(new_fact(text, importance, entity, compact, tee)) == Some(
            FactView {
                id: fact_id(text, compact),
                text,
                importance: importance_of(importance),
                entity,
                created_at: tee,
                absorbed: false,
                signals_checked: false,
            },
        ),
{
    reveal_strlit("id");
    reveal_strlit("text");
    reveal_strlit("importance");
    reveal_strlit("entity");
    reveal_strlit("created_at");
    reveal_strlit("absorbed");
    reveal_strlit("signals_checked");
    reveal_with_fuel(crate::json::find_field, 8);
    let v = new_fact(text, importance, entity, compact, tee);
    let f = v->Record_0;
    assert(f.drop_first()[0] == f[1]);
    assert(f.drop_first().drop_first()[0] == f[2]);
    assert(f.drop_first().drop_first().drop_first()[0] == f[3]);
    assert(f.drop_first().drop_first().drop_first().drop_first()[0] == f[4]);
    assert(f.drop_first().drop_first().drop_first().drop_first().drop_first()[0] == f[5]);
    assert(f.drop_first().drop_first().drop_first().drop_first().drop_first().drop_first()[0]
        == f[6]);
    assert("id"@[0] == 'i' && "id"@.len() == 2);
    assert("text"@.len() == 4);
    assert("importance"@.len() == 10 && "importance"@[0] == 'i');
    assert("entity"@.len() == 6);
    assert("created_at"@.len() == 10 && "created_at"@[0] == 'c');
    assert("absorbed"@.len() == 8);
    assert("signals_checked"@.len() == 15);
}

/// A fact that was taken in is among the facts that are read, with the text
/// trimmed and the importance between 1 and 10.
pub proof fn law_fact_remembered(
    s: StoreView,
    text: Seq<char>,
    importance: i32,
    entity: Seq<char>,
    compact: Seq<char>,
    tee: Seq<char>,
)
    requires
        s.fact_accepted(text) == Ok::<bool, Seq<char>>(true),
    ensures
        s.with_fact(text, importance, entity, compact, tee).all_facts().contains(
            FactView {
                id: fact_id(trimmed(text), compact),
                text: trimmed(text),
                importance: importance_of(importance),
                entity,
                created_at: tee,
                absorbed: false,
                signals_checked: false,
            },
        ),
        s.with_fact(text, importance, entity, compact, tee).all_facts().len()
            == s.all_facts().len() + 1,
{
    let t = trimmed(text);
    let items = items_or_none(s.facts);
    let fact = new_fact(t, importance, entity, compact, tee);
    lemma_new_fact(t, importance, entity, compact, tee);
    let after = items.push(fact);
    assert(after.drop_last() =~= items);
    let f = fact_in(fact)->0;
    assert(facts_in(after) == facts_in(items).push(f));
    let before = |a: FactView, b: FactView| fact_before(a, b);
    assert(facts_in(after)[facts_in(items).len() as int] == f);
    crate::order::lemma_sort_contains(facts_in(after), before, f);
    crate::order::lemma_sort_keeps_items(facts_in(after), before);
    crate::order::lemma_sort_keeps_items(facts_in(items), before);
}

/// Facts are read in their order, whatever the order in which they were stored.
pub proof fn law_facts_in_order(s: StoreView)
    ensures
        forall|i: int, j: int|
            0 <= i < j < s.all_facts().len() ==> !fact_before(
                #[trigger] s.all_facts()[j],
                #[trigger] s.all_facts()[i],
            ),
{
    lemma_fact_order();
    let before = |a: FactView, b: FactView| fact_before(a, b);
    crate::order::lemma_sort_in_order(facts_in(items_or_none(s.facts)), before);
}

// ---------------------------------------------------------------------------
// Marks on facts
// ---------------------------------------------------------------------------

/// Whether a document has one of these ids.
pub open spec fn has_id(v: JsonView, ids: Seq<Seq<char>>) -> bool {
    v.text_at("id"@) is Some && ids.contains(v.text_at("id"@)->0)
}

/// The documents, those with one of these ids marked under `key`.
pub open spec fn marked(items: Seq<JsonView>, ids: Seq<Seq<char>>, key: Seq<char>) -> Seq<
    JsonView,
> {
    items.map_values(
        |v: JsonView|
            if has_id(v, ids) {
                v.with(key, JsonView::Bool(true))
            } else {
                v
            },
    )
}

/// Whether `list` holds `text`.
pub fn holds_string(list: &Vec<String>, text: &str) -> (r: bool)
    ensures
        r == views(list@).contains(text@),
{
    let ghost all = views(list@);
    let mut i: usize = 0;
    while i < list.len()
        invariant
            i <= list.len(),
            all == views(list@),
            forall|k: int| 0 <= k < i ==> #[trigger] all[k] != text@,
        decreases list.len() - i,
    {
        proof {
            assert(all[i as int] == list@[i as int]@);
        }
        if same_text(list[i].as_str(), text) {
            assert(all[i as int] == text@);
            return true;
        }
        i = i + 1;
    }
    false
}

fn mark_items(items: &Vec<Json>, ids: &Vec<String>, key: &str) -> (r: Vec<Json>)
    ensures
        json_views(r@) == marked(json_views(items@), views(ids@), key@),
{
    let ghost all = json_views(items@);
    let ghost goal = marked(all, views(ids@), key@);
    let mut out: Vec<Json> = Vec::new();
    let mut i: usize = 0;
    while i < items.len()
        invariant
            i <= items.len(),
            all == json_views(items@),
            goal == marked(all, views(ids@), key@),
            json_views(out@) =~= goal.take(i as int),
        decreases items.len() - i,
    {
        let ghost before = json_views(out@);
        let hit: bool = match items[i].text_at("id") {
            Some(id) => holds_string(ids, id),
            None => false,
        };
        let item = items[i].copy();
        let done = if hit {
            item.with(key, Json::Bool(true))
        } else {
            item
        };
        out.push(done);
        proof {
            assert(all[i as int] == items@[i as int]@);
            assert(json_views(out@) =~= before.push(done@));
            assert(goal.take(i + 1) =~= goal.take(i as int).push(goal[i as int]));
        }
        i = i + 1;
    }
    proof {
        assert(goal.take(i as int) =~= goal);
    }
    out
}

impl StoreView {
    /// The store with facts marked under `key`.
    pub open spec fn with_marks(self, ids: Seq<Seq<char>>, key: Seq<char>) -> StoreView {
        match self.facts.items() {
            Some(items) => StoreView { facts: JsonView::List(marked(items, ids, key)), ..self },
            None => self,
        }
    }

    /// Whether facts can be marked.
    pub open spec fn facts_writable(self) -> Result<(), Seq<char>> {
        match self.facts.items() {
            Some(_) => Ok(()),
            None => Err(facts_broken()),
        }
    }
}

impl MemoryStore {
    fn mark_facts(&mut self, fact_ids: &Vec<String>, key: &str) -> (r: Result<(), String>)
        ensures
            same_outcome(r, old(self)@.facts_writable()),
            final(self)@ == old(self)@.with_marks(views(fact_ids@), key@),
    {
        let items = match self.facts.as_array() {
            None => {
                return Err("facts.json 不是数组".to_string());
            },
            Some(items) => mark_items(items, fact_ids, key),
        };
        self.facts = Json::List(items);
        proof {
            lemma_json_view(self.facts);
        }
        Ok(())
    }

    /// Marks the facts with these ids as drawn on by a reflection.
    pub fn mark_facts_absorbed(&mut self, fact_ids: &Vec<String>) -> (r: Result<(), String>)
        ensures
            same_outcome(r, old(self)@.facts_writable()),
            final(self)@ == old(self)@.with_marks(views(fact_ids@), "absorbed"@),
    {
        self.mark_facts(fact_ids, "absorbed")
    }

    /// Marks the facts with these ids as held against the reflections.
    pub fn mark_facts_signals_checked(&mut self, fact_ids: &Vec<String>) -> (r: Result<(), String>)
        ensures
            same_outcome(r, old(self)@.facts_writable()),
            final(self)@ == old(self)@.with_marks(views(fact_ids@), "signals_checked"@),
    {
        self.mark_facts(fact_ids, "signals_checked")
    }
}

/// A mark sets its flag on the fact that a record stores and changes nothing else
/// of it.
pub proof fn law_mark_sets_one_flag(v: JsonView, key: Seq<char>)
    requires
        v is Record,
        fact_in(v) is Some,
        key == "absorbed"@ || key == "signals_checked"@,
    ensures
        fact_in(v.with(key, JsonView::Bool(true))) == Some(
            FactView {
                absorbed: fact_in(v)->0.absorbed || key == "absorbed"@,
                signals_checked: fact_in(v)->0.signals_checked || key == "signals_checked"@,
                ..fact_in(v)->0
            },
        ),
{
    reveal_strlit("id");
    reveal_strlit("text");
    reveal_strlit("importance");
    reveal_strlit("entity");
    reveal_strlit("created_at");
    reveal_strlit("absorbed");
    reveal_strlit("signals_checked");
    let fields = v->Record_0;
    let on = JsonView::Bool(true);
    crate::json::lemma_put_field(fields, key, on, "id"@);
    crate::json::lemma_put_field(fields, key, on, "text"@);
    crate::json::lemma_put_field(fields, key, on, "importance"@);
    crate::json::lemma_put_field(fields, key, on, "entity"@);
    crate::json::lemma_put_field(fields, key, on, "created_at"@);
    crate::json::lemma_put_field(fields, key, on, "absorbed"@);
    crate::json::lemma_put_field(fields, key, on, "signals_checked"@);
    assert("id"@.len() == 2 && "text"@.len() == 4 && "entity"@.len() == 6);
    assert("importance"@.len() == 10 && "created_at"@.len() == 10);
    assert("absorbed"@.len() == 8 && "signals_checked"@.len() == 15);
}

/// The ids of facts.
pub open spec fn ids_of(facts: Seq<FactView>) -> Seq<Seq<char>> {
    facts.map_values(|f: FactView| f.id)
}

/// Whether an item stores this fact as a list, which no mark reaches.
pub open spec fn listed(items: Seq<JsonView>, f: FactView) -> bool {
    exists|i: int|
        0 <= i < items.len() && (#[trigger] items[i]) is List && fact_in(items[i]) == Some(f)
}

/// The facts that a mark concerns, after it: they have the mark, or they are stored as
/// lists.
proof fn lemma_marked_facts(items: Seq<JsonView>, ids: Seq<Seq<char>>, key: Seq<char>, f: FactView)
    requires
        key == "absorbed"@ || key == "signals_checked"@,
        facts_in(marked(items, ids, key)).contains(f),
        ids.contains(f.id),
        !listed(items, f),
    ensures
        key == "absorbed"@ ==> f.absorbed,
        key == "signals_checked"@ ==> f.signals_checked,
    decreases items.len(),
{
    if items.len() > 0 {
        let rest = items.drop_last();
        let v = items.last();
        let after = marked(items, ids, key);
        assert(after.drop_last() =~= marked(rest, ids, key));
        assert(forall|i: int| 0 <= i < rest.len() ==> rest[i] == items[i]);
        let w = after.last();
        let before = facts_in(marked(rest, ids, key));
        if before.contains(f) {
            if listed(rest, f) {
                let k = choose|k: int|
                    0 <= k < rest.len() && (#[trigger] rest[k]) is List && fact_in(rest[k]) == Some(
                        f,
                    );
                assert(items[k] is List);
            }
            lemma_marked_facts(rest, ids, key, f);
        } else {
            assert(fact_in(w) is Some);
            crate::order::lemma_push_contains(before, fact_in(w)->0, f);
            assert(fact_in(w)->0 == f);
            if has_id(v, ids) {
                lemma_put_read(v, key);
                lemma_mark_back(v, key);
            } else {
                assert(w == v);
                assert(items[items.len() - 1] == v);
                assert(v is Record);
                assert(v.text_at("id"@) == Some(f.id));
            }
        }
    }
}

/// A mark is read back.
proof fn lemma_put_read(v: JsonView, key: Seq<char>)
    requires
        v is Record,
    ensures
        v.with(key, JsonView::Bool(true)).get(key) == Some(JsonView::Bool(true)),
{
    crate::json::lemma_put_field(v->Record_0, key, JsonView::Bool(true), key);
}

/// A fact that is read from a marked record has the mark.
proof fn lemma_mark_back(v: JsonView, key: Seq<char>)
    requires
        v is Record,
        fact_in(v.with(key, JsonView::Bool(true))) is Some,
    ensures
        key == "absorbed"@ ==> fact_in(v.with(key, JsonView::Bool(true)))->0.absorbed,
        key == "signals_checked"@ ==> fact_in(
            v.with(key, JsonView::Bool(true)),
        )->0.signals_checked,
{
    lemma_put_read(v, key);
}

/// A fact that was marked as drawn on is never offered for a reflection again, and
/// one that was held against the reflections never for that, whatever else is stored
/// among the facts. Only a fact that is stored as a list takes no mark.
pub proof fn law_marked_facts_are_done(
    s: StoreView,
    ids: Seq<Seq<char>>,
    min_importance: i32,
    max: int,
)
    requires
        0 <= max,
    ensures
        forall|f: FactView| #[trigger]
            s.with_marks(ids, "absorbed"@).unabsorbed(min_importance).contains(f) && !listed(
                items_or_none(s.facts),
                f,
            ) ==> !ids.contains(f.id),
        forall|f: FactView| #[trigger]
            s.with_marks(ids, "signals_checked"@).pending_signals(min_importance, max).contains(f)
                && !listed(items_or_none(s.facts), f) ==> !ids.contains(f.id),
{
    let before = |a: FactView, b: FactView| fact_before(a, b);
    let free = |f: FactView| !f.absorbed && f.importance >= min_importance;
    let open = |f: FactView| !f.absorbed && !f.signals_checked && f.importance >= min_importance;
    let items = items_or_none(s.facts);
    assert forall|f: FactView| #[trigger]
        s.with_marks(ids, "absorbed"@).unabsorbed(min_importance).contains(f) && !listed(
            items,
            f,
        ) implies !ids.contains(f.id) by {
        let after = s.with_marks(ids, "absorbed"@);
        assert(after.all_facts().contains(f)) by {
            lemma_filter_contains(after.all_facts(), free, f);
        }
        crate::order::lemma_sort_contains(facts_in(items_or_none(after.facts)), before, f);
        if ids.contains(f.id) {
            if s.facts.items() is Some {
                lemma_marked_facts(items, ids, "absorbed"@, f);
            }
        }
    }
    assert forall|f: FactView| #[trigger]
        s.with_marks(ids, "signals_checked"@).pending_signals(min_importance, max).contains(f)
            && !listed(items, f) implies !ids.contains(f.id) by {
        let after = s.with_marks(ids, "signals_checked"@);
        let picked = after.all_facts().filter(open);
        let k = choose|k: int|
            0 <= k < after.pending_signals(min_importance, max).len() && after.pending_signals(
                min_importance,
                max,
            )[k] == f;
        assert(picked[k] == f);
        assert(after.all_facts().contains(f)) by {
            lemma_filter_contains(after.all_facts(), open, f);
        }
        crate::order::lemma_sort_contains(facts_in(items_or_none(after.facts)), before, f);
        if ids.contains(f.id) {
            if s.facts.items() is Some {
                lemma_marked_facts(items, ids, "signals_checked"@, f);
            }
        }
    }
}

/// The facts that are still to be held against the reflections are the first of those
/// that no reflection has drawn on and that were not held against any, in their order.
pub proof fn law_pending_facts_are_unchecked(s: StoreView, min_importance: i32, max: int)
    ensures
        s.pending_signals(min_importance, max) == crate::order::at_most(
            s.unabsorbed(min_importance).filter(|f: FactView| !f.signals_checked),
            max,
        ),
{
    let free = |f: FactView| !f.absorbed && f.importance >= min_importance;
    let unchecked = |f: FactView| !f.signals_checked;
    let open = |f: FactView| !f.absorbed && !f.signals_checked && f.importance >= min_importance;
    lemma_filter_twice(s.all_facts(), free, unchecked, open);
}

impl StoreView {
    /// After `n` rounds in each of which the facts that are still to be held against the
    /// reflections are marked as held against them.
    pub open spec fn after_rounds(self, min_importance: i32, max: int, n: int) -> StoreView
        decreases n,
    {
        if n <= 0 {
            self
        } else {
            let s = self.after_rounds(min_importance, max, n - 1);
            s.with_marks(ids_of(s.pending_signals(min_importance, max)), "signals_checked"@)
        }
    }

    /// The ids that were visited in the first `n` of such rounds.
    pub open spec fn visited(self, min_importance: i32, max: int, n: int) -> Seq<Seq<char>>
        decreases n,
    {
        if n <= 0 {
            Seq::empty()
        } else {
            self.visited(min_importance, max, n - 1) + ids_of(
                self.after_rounds(min_importance, max, n - 1).pending_signals(min_importance, max),
            )
        }
    }
}

/// Marking twice marks all that either marks.
proof fn lemma_marked_twice(s: StoreView, a: Seq<Seq<char>>, b: Seq<Seq<char>>)
    ensures
        s.with_marks(a, "signals_checked"@).with_marks(b, "signals_checked"@) == s.with_marks(
            a + b,
            "signals_checked"@,
        ),
{
    let key = "signals_checked"@;
    if s.facts.items() is Some {
        let items = s.facts.items()->0;
        let on = JsonView::Bool(true);
        reveal_strlit("id");
        reveal_strlit("signals_checked");
        assert("id"@.len() != key.len());
        assert forall|i: int| 0 <= i < items.len() implies #[trigger] marked(
            marked(items, a, key),
            b,
            key,
        )[i] == marked(items, a + b, key)[i] by {
            let v = items[i];
            let w = v.with(key, on);
            if v is Record {
                crate::json::lemma_put_field(v->Record_0, key, on, "id"@);
                crate::json::lemma_put_twice(v->Record_0, key, on);
            }
            assert(w.text_at("id"@) == v.text_at("id"@));
            assert(w.with(key, on) == w);
            if v.text_at("id"@) is Some {
                let id = v.text_at("id"@)->0;
                assert((a + b).contains(id) == (a.contains(id) || b.contains(id))) by {
                    lemma_sum_contains(a, b, id);
                }
            }
        }
        assert(marked(marked(items, a, key), b, key) =~= marked(items, a + b, key));
    }
}

/// What a sum of sequences holds.
proof fn lemma_sum_contains<T>(a: Seq<T>, b: Seq<T>, x: T)
    ensures
        (a + b).contains(x) == (a.contains(x) || b.contains(x)),
{
    if a.contains(x) {
        let k = choose|k: int| 0 <= k < a.len() && a[k] == x;
        assert((a + b)[k] == x);
    }
    if b.contains(x) {
        let k = choose|k: int| 0 <= k < b.len() && b[k] == x;
        assert((a + b)[a.len() + k] == x);
    }
}

/// Rounds mark all that they visit.
proof fn lemma_rounds_mark(s: StoreView, min_importance: i32, max: int, n: int)
    ensures
        s.after_rounds(min_importance, max, n) == s.with_marks(
            s.visited(min_importance, max, n),
            "signals_checked"@,
        ),
    decreases n,
{
    if n <= 0 {
        if s.facts.items() is Some {
            let items = s.facts.items()->0;
            assert(marked(items, Seq::empty(), "signals_checked"@) =~= items);
        }
    } else {
        lemma_rounds_mark(s, min_importance, max, n - 1);
        lemma_marked_twice(
            s,
            s.visited(min_importance, max, n - 1),
            ids_of(s.after_rounds(min_importance, max, n - 1).pending_signals(min_importance, max)),
        );
    }
}

/// What a round visits, it has visited ever after.
proof fn lemma_visited_grows(s: StoreView, min_importance: i32, max: int, i: int, j: int, id: Seq<char>)
    requires
        0 <= i < j,
        ids_of(s.after_rounds(min_importance, max, i).pending_signals(min_importance, max)).contains(
            id,
        ),
    ensures
        s.visited(min_importance, max, j).contains(id),
    decreases j - i,
{
    let last = ids_of(
        s.after_rounds(min_importance, max, j - 1).pending_signals(min_importance, max),
    );
    lemma_sum_contains(s.visited(min_importance, max, j - 1), last, id);
    if i < j - 1 {
        lemma_visited_grows(s, min_importance, max, i, j - 1, id);
    }
}

/// Where the facts that are offered to be held against the reflections are marked in round
/// after round, no round offers what an earlier one did, so that every fact is visited
/// once at most. A fact that is stored as a list takes no mark, and the earlier round may
/// offer none with the id of such a one.
pub proof fn law_pending_facts_are_visited_once(
    s: StoreView,
    min_importance: i32,
    max: int,
    i: int,
    j: int,
)
    requires
        0 <= max,
        0 <= i < j,
        forall|f: FactView| #[trigger]
            listed(items_or_none(s.facts), f) ==> !ids_of(
                s.after_rounds(min_importance, max, i).pending_signals(min_importance, max),
            ).contains(f.id),
    ensures
        forall|f: FactView| #[trigger]
            s.after_rounds(min_importance, max, j).pending_signals(min_importance, max).contains(f)
                ==> !ids_of(
                s.after_rounds(min_importance, max, i).pending_signals(min_importance, max),
            ).contains(f.id),
{
    let all = s.visited(min_importance, max, j);
    lemma_rounds_mark(s, min_importance, max, j);
    law_marked_facts_are_done(s, all, min_importance, max);
    assert forall|f: FactView| #[trigger]
        s.after_rounds(min_importance, max, j).pending_signals(min_importance, max).contains(
            f,
        ) implies !ids_of(
        s.after_rounds(min_importance, max, i).pending_signals(min_importance, max),
    ).contains(f.id) by {
        if ids_of(
            s.after_rounds(min_importance, max, i).pending_signals(min_importance, max),
        ).contains(f.id) {
            lemma_visited_grows(s, min_importance, max, i, j, f.id);
            assert(s.with_marks(all, "signals_checked"@).pending_signals(
                min_importance,
                max,
            ).contains(f));
            assert(!listed(items_or_none(s.facts), f));
        }
    }
}

/// Selecting twice selects by both conditions.
proof fn lemma_filter_twice<T>(
    s: Seq<T>,
    first: spec_fn(T) -> bool,
    second: spec_fn(T) -> bool,
    both: spec_fn(T) -> bool,
)
    requires
        forall|x: T| #[trigger] both(x) == (first(x) && second(x)),
    ensures
        s.filter(first).filter(second) == s.filter(both),
    decreases s.len(),
{
    reveal(Seq::filter);
    if s.len() > 0 {
        let rest = s.drop_last();
        lemma_filter_twice(rest, first, second, both);
        assert(both(s.last()) == (first(s.last()) && second(s.last())));
        if first(s.last()) {
            assert(rest.filter(first).push(s.last()).drop_last() =~= rest.filter(first));
        }
    }
}

/// What a selection holds, it was selected from.
pub proof fn lemma_filter_contains<T>(s: Seq<T>, pick: spec_fn(T) -> bool, x: T)
    requires
        s.filter(pick).contains(x),
    ensures
        s.contains(x),
        pick(x),
    decreases s.len(),
{
    reveal(Seq::filter);
    if s.len() > 0 {
        let rest = s.drop_last();
        if rest.filter(pick).contains(x) {
            lemma_filter_contains(rest, pick, x);
            let k = choose|k: int| 0 <= k < rest.len() && rest[k] == x;
            assert(s[k] == x);
        } else {
            crate::order::lemma_push_contains(rest.filter(pick), s.last(), x);
            assert(s[s.len() - 1] == x);
        }
    }
}

// ---------------------------------------------------------------------------
// Recent turns
// ---------------------------------------------------------------------------

/// The most turns that are kept.
pub const MAX_RECENT: usize = 20;

/// The last items of a sequence, at most `n`.
pub open spec fn last_of<T>(s: Seq<T>, n: int) -> Seq<T> {
    if s.len() <= n {
        s
    } else {
        s.skip(s.len() - n)
    }
}

/// A turn as it is stored.
pub open spec fn turn(role: Seq<char>, content: Seq<char>, ts: Seq<char>) -> JsonView {
    JsonView::Record(
        seq![
            ("role"@, JsonView::Text(role)),
            ("content"@, JsonView::Text(content)),
            ("ts"@, JsonView::Text(ts)),
        ],
    )
}

/// A turn as it is stored.
pub fn turn_json(role: &str, content: &str, ts: &str) -> (r: Json)
    ensures
        r@ == turn(role@, content@, ts@),
{
    let r = Json::Record(
        vec![
            ("role".to_string(), text_json(role)),
            ("content".to_string(), text_json(content)),
            ("ts".to_string(), text_json(ts)),
        ],
    );
    proof {
        lemma_json_view(r);
        assert(r@->Record_0 =~= turn(role@, content@, ts@)->Record_0);
    }
    r
}

/// `items` with `item` behind them, and of that the last `n`.
pub fn push_last(items: &Vec<Json>, item: Json, n: usize) -> (r: Vec<Json>)
    ensures
        json_views(r@) == last_of(json_views(items@).push(item@), n as int),
{
    let ghost all = json_views(items@).push(item@);
    let mut out = copy_jsons(items);
    let ghost said = item@;
    let ghost before = json_views(out@);
    out.push(item);
    proof {
        assert(json_views(out@) =~= before.push(said));
    }
    let len: usize = out.len();
    if len > n {
        let tail = out.split_off(len - n);
        proof {
            assert(json_views(tail@) =~= all.skip(len - n));
        }
        tail
    } else {
        out
    }
}

impl StoreView {
    /// The store after a turn at `ts`.
    pub open spec fn with_turn(self, role: Seq<char>, content: Seq<char>, ts: Seq<char>) -> StoreView {
        match self.recent.items() {
            Some(items) => StoreView {
                recent: JsonView::List(
                    last_of(items.push(turn(role, content, ts)), MAX_RECENT as int),
                ),
                ..self
            },
            None => self,
        }
    }

    /// Whether a turn can be taken in.
    pub open spec fn recent_writable(self) -> Result<(), Seq<char>> {
        match self.recent.items() {
            Some(_) => Ok(()),
            None => Err("recent.json 不是数组"@),
        }
    }
}

/// Who speaks in a role.
pub open spec fn speaker_of(role: Seq<char>) -> Seq<char> {
    if role == "user"@ {
        "主人"@
    } else {
        "优香"@
    }
}

/// Who speaks in a role.
pub fn speaker(role: &str) -> (r: &'static str)
    ensures
        r@ == speaker_of(role@),
{
    if same_text(role, "user") {
        "主人"
    } else {
        "优香"
    }
}

/// The line of a turn in a conversation.
pub open spec fn turn_line(m: JsonView) -> Seq<char> {
    speaker_of(m.text_or("role"@, ""@)) + ": "@ + m.text_or("content"@, ""@) + "\n"@
}

/// The line of a turn in a conversation.
pub fn turn_text(m: &Json) -> (r: String)
    ensures
        r@ == turn_line(m@),
{
    let role = m.text_or("role", "");
    let content = m.text_or("content", "");
    let mut line = speaker(role.as_str()).to_string();
    line.append(": ");
    line.append(content.as_str());
    line.append("\n");
    line
}

/// The lines of the first turns, as many as fit into `max` bytes.
pub open spec fn conversation(turns: Seq<JsonView>, max: int) -> Seq<char> {
    conversation_from(turns, max, Seq::empty())
}

/// `out` and the lines of the first turns, as many as fit into `max` bytes.
pub open spec fn conversation_from(turns: Seq<JsonView>, max: int, out: Seq<char>) -> Seq<char>
    decreases turns.len(),
{
    if turns.len() == 0 {
        out
    } else {
        let line = turn_line(turns[0]);
        if crate::text::byte_size(out) + crate::text::byte_size(line) > max {
            out
        } else {
            conversation_from(turns.drop_first(), max, out + line)
        }
    }
}

/// Whether the bytes of `a` and `b` together fit into `max`.
fn fits(a: &str, b: &str, max: usize) -> (r: bool)
    ensures
        r == (crate::text::byte_size(a@) + crate::text::byte_size(b@) <= max),
{
    let x: usize = crate::text::byte_len(a);
    let y: usize = crate::text::byte_len(b);
    x <= max && y <= max - x
}

impl MemoryStore {
    /// Takes in a turn, now.
    pub fn append_recent(&mut self, role: &str, content: &str) -> (r: Result<(), String>)
        ensures
            same_outcome(r, old(self)@.recent_writable()),
            exists|ts: Seq<char>|
                final(self)@ == #[trigger] old(self)@.with_turn(role@, content@, ts),
    {
        self.append_recent_at(role, content, local_now().spaced.as_str())
    }

    /// Takes in a turn at `ts`. Only the last turns are kept.
    pub fn append_recent_at(&mut self, role: &str, content: &str, ts: &str) -> (r: Result<
        (),
        String,
    >)
        ensures
            same_outcome(r, old(self)@.recent_writable()),
            final(self)@ == old(self)@.with_turn(role@, content@, ts@),
    {
        let items = match self.recent.as_array() {
            None => {
                return Err("recent.json 不是数组".to_string());
            },
            Some(items) => push_last(items, turn_json(role, content, ts), MAX_RECENT),
        };
        self.recent = Json::List(items);
        proof {
            lemma_json_view(self.recent);
        }
        Ok(())
    }

    /// The recent turns.
    pub fn get_recent(&self) -> (r: Vec<Json>)
        ensures
            json_views(r@) == items_or_none(self@.recent),
    {
        match self.recent.as_array() {
            Some(items) => copy_jsons(items),
            None => {
                let none: Vec<Json> = Vec::new();
                proof {
                    assert(json_views(none@) =~= Seq::<JsonView>::empty());
                }
                none
            },
        }
    }

    /// The recent turns as a conversation, as many as fit into `max_chars` bytes.
    pub fn get_recent_conversation_text(&self, max_chars: usize) -> (r: String)
        ensures
            r@ == conversation(items_or_none(self@.recent), max_chars as int),
    {
        let turns = self.get_recent();
        let ghost all = json_views(turns@);
        let mut out = String::new();
        let mut i: usize = 0;
        proof {
            assert(out@ =~= Seq::<char>::empty());
            assert(all.skip(0) =~= all);
        }
        while i < turns.len()
            invariant
                i <= turns.len(),
                all == json_views(turns@),
                all == items_or_none(self@.recent),
                conversation_from(all.skip(i as int), max_chars as int, out@) == conversation(
                    all,
                    max_chars as int,
                ),
            decreases turns.len() - i,
        {
            proof {
                assert(all.skip(i as int)[0] == turns@[i as int]@);
                assert(all.skip(i as int).drop_first() =~= all.skip(i + 1));
            }
            let line = turn_text(&turns[i]);
            if !fits(out.as_str(), line.as_str(), max_chars) {
                return out;
            }
            out.append(line.as_str());
            i = i + 1;
        }
        out
    }
}

/// No more turns are kept than may be.
pub proof fn law_recent_bounded(s: StoreView, role: Seq<char>, content: Seq<char>, ts: Seq<char>)
    requires
        s.recent.items() is Some,
    ensures
        items_or_none(s.with_turn(role, content, ts).recent).len() <= MAX_RECENT,
        items_or_none(s.with_turn(role, content, ts).recent).last() == turn(role, content, ts),
{
}

/// The size of two texts together.
pub proof fn lemma_byte_size(a: Seq<char>, b: Seq<char>)
    ensures
        crate::text::byte_size(a + b) == crate::text::byte_size(a) + crate::text::byte_size(b),
    decreases a.len(),
{
    reveal_with_fuel(vstd::utf8::encode_utf8, 2);
    if a.len() == 0 {
        assert(a + b =~= b);
    } else {
        lemma_byte_size(a.drop_first(), b);
        assert((a + b).drop_first() =~= a.drop_first() + b);
        assert((a + b)[0] == a[0]);
    }
}

/// A conversation never takes more than the bytes it was given.
pub proof fn law_conversation_bounded(turns: Seq<JsonView>, max: int, out: Seq<char>)
    requires
        crate::text::byte_size(out) <= max,
    ensures
        crate::text::byte_size(conversation_from(turns, max, out)) <= max,
    decreases turns.len(),
{
    if turns.len() > 0 {
        let line = turn_line(turns[0]);
        lemma_byte_size(out, line);
        if crate::text::byte_size(out) + crate::text::byte_size(line) <= max {
            law_conversation_bounded(turns.drop_first(), max, out + line);
        }
    }
}

// ---------------------------------------------------------------------------
// Personas
// ---------------------------------------------------------------------------

/// An entry of a persona as it is stored.
pub open spec fn persona_entry(text: Seq<char>, ts: Seq<char>) -> JsonView {
    JsonView::Record(
        seq![
            ("text"@, JsonView::Text(text)),
            ("source"@, JsonView::Text("manual"@)),
            ("ts"@, JsonView::Text(ts)),
        ],
    )
}

fn make_entry(text: &str, ts: &str) -> (r: Json)
    ensures
        r@ == persona_entry(text@, ts@),
{
    let r = Json::Record(
        vec![
            ("text".to_string(), text_json(text)),
            ("source".to_string(), text_json("manual")),
            ("ts".to_string(), text_json(ts)),
        ],
    );
    proof {
        lemma_json_view(r);
        assert(r@->Record_0 =~= persona_entry(text@, ts@)->Record_0);
    }
    r
}

/// What is said of a section that is no list.
pub open spec fn section_broken() -> Seq<char> {
    "persona section 不是数组"@
}

impl StoreView {
    /// Whether an entry of this text is taken into a section: it is new there.
    pub open spec fn persona_accepted(self, entity: Seq<char>, text: Seq<char>) -> Result<
        bool,
        Seq<char>,
    > {
        match self.persona.items_at(entity) {
            None => Err(section_broken()),
            Some(section) => Ok(!has_fact_text(section, text)),
        }
    }

    /// The store after an entry was offered to a section.
    pub open spec fn with_persona(
        self,
        entity: Seq<char>,
        text: Seq<char>,
        ts: Seq<char>,
    ) -> StoreView {
        if self.persona_accepted(entity, text) == Ok::<bool, Seq<char>>(true) {
            StoreView {
                persona: self.persona.with(
                    entity,
                    JsonView::List(
                        self.persona.items_at(entity)->0.push(persona_entry(text, ts)),
                    ),
                ),
                ..self
            }
        } else {
            self
        }
    }
}

impl MemoryStore {
    /// Takes an entry into a section of the personas, now.
    pub fn add_persona_fact(&mut self, entity: &str, text: &str) -> (r: Result<bool, String>)
        ensures
            same_outcome(r, old(self)@.persona_accepted(entity@, text@)),
            exists|ts: Seq<char>|
                final(self)@ == #[trigger] old(self)@.with_persona(entity@, text@, ts),
    {
        self.add_persona_fact_at(entity, text, local_now().spaced.as_str())
    }

    /// Takes an entry into a section of the personas at `ts`, unless it is there.
    pub fn add_persona_fact_at(&mut self, entity: &str, text: &str, ts: &str) -> (r: Result<
        bool,
        String,
    >)
        ensures
            same_outcome(r, old(self)@.persona_accepted(entity@, text@)),
            final(self)@ == old(self)@.with_persona(entity@, text@, ts@),
    {
        let mut section = match self.persona.items_at(entity) {
            None => {
                return Err("persona section 不是数组".to_string());
            },
            Some(section) => {
                if holds_text(section, text) {
                    return Ok(false);
                }
                copy_jsons(section)
            },
        };
        let ghost before = json_views(section@);
        let entry = make_entry(text, ts);
        let ghost said = entry@;
        section.push(entry);
        let list = Json::List(section);
        proof {
            lemma_json_view(list);
            assert(json_views(section@) =~= before.push(said));
        }
        self.persona = self.persona.copy().with(entity, list);
        Ok(true)
    }
}

/// An entry that was taken in is not taken in again.
pub proof fn law_persona_once(s: StoreView, entity: Seq<char>, text: Seq<char>, ts: Seq<char>)
    requires
        s.persona_accepted(entity, text) == Ok::<bool, Seq<char>>(true),
    ensures
        s.with_persona(entity, text, ts).persona_accepted(entity, text) == Ok::<bool, Seq<char>>(
            false,
        ),
{
    let section = s.persona.items_at(entity)->0;
    let entry = persona_entry(text, ts);
    let after = section.push(entry);
    reveal_strlit("text");
    reveal_with_fuel(crate::json::find_field, 2);
    assert(entry.text_at("text"@) == Some(text));
    assert(after[section.len() as int].text_at("text"@) == Some(text));
    assert(has_fact_text(after, text));
    crate::json::lemma_put_field(s.persona->Record_0, entity, JsonView::List(after), entity);
}

} // verus!
