//! Topics that were left hanging in a conversation.

use crate::chat::{
    briefed, briefed_request, content_of, reply_content, request, strip_fence, text_json, unfenced,
};
use crate::clock::{local_now, Seconds};
use crate::config::{chat_model, chat_model_of, content_view};
use crate::json::{json_read, json_views, read_json, Json, JsonView};
use crate::memory::{copy_strings, holds_string};
use crate::memory_prompts::OPEN_THREADS_PROMPT;
use crate::order::at_most;
use crate::text::{is_empty, replace, replaced, trim, trimmed, views};
use vstd::prelude::*;

verus! {

/// Seconds between two detections.
pub const OPEN_THREADS_COOLDOWN_SECONDS: i64 = 60;

/// The most threads that are kept.
pub const OPEN_THREADS_MAX: usize = 3;

// ---------------------------------------------------------------------------
// The cache
// ---------------------------------------------------------------------------

/// The threads that were found last, until the user speaks again.
pub struct OpenThreadsCache {
    threads: Vec<String>,
    last_computed_at: Seconds,
    dirty: bool,
}

/// The contents of the cache.
pub struct ThreadsView {
    pub threads: Seq<Seq<char>>,
    pub last_computed_at: Seconds,
    /// The user has spoken since.
    pub dirty: bool,
}

impl View for OpenThreadsCache {
    type V = ThreadsView;

    closed spec fn view(&self) -> ThreadsView {
        ThreadsView {
            threads: views(self.threads@),
            last_computed_at: self.last_computed_at,
            dirty: self.dirty,
        }
    }
}

impl ThreadsView {
    /// Nothing was looked for yet.
    pub open spec fn fresh() -> ThreadsView {
        ThreadsView {
            threads: Seq::empty(),
            last_computed_at: (Seconds { micros: 0 }),
            dirty: false,
        }
    }

    /// The threads that may be taken up: none once the user has spoken.
    pub open spec fn usable(self) -> Seq<Seq<char>> {
        if self.dirty {
            Seq::empty()
        } else {
            self.threads
        }
    }

    /// Whether the last detection is long enough ago at `now`.
    pub open spec fn rested(self, now: Seconds) -> bool {
        now.micros - self.last_computed_at.micros >= OPEN_THREADS_COOLDOWN_SECONDS * 1_000_000
    }

    /// Whether threads are to be looked for at `now`.
    pub open spec fn due(self, now: Seconds) -> bool {
        self.dirty && self.rested(now)
    }

    /// After the user has spoken.
    pub open spec fn invalidated(self) -> ThreadsView {
        ThreadsView { dirty: true, ..self }
    }

    /// After a detection at `now`.
    pub open spec fn stored(self, threads: Seq<Seq<char>>, now: Seconds) -> ThreadsView {
        ThreadsView { threads, last_computed_at: now, dirty: false }
    }
}

impl OpenThreadsCache {
    /// Nothing was looked for yet.
    pub fn new() -> (r: OpenThreadsCache)
        ensures
            r@ == ThreadsView::fresh(),
    {
        let r = OpenThreadsCache {
            threads: Vec::new(),
            last_computed_at: Seconds { micros: 0 },
            dirty: false,
        };
        proof {
            assert(r@.threads =~= Seq::<Seq<char>>::empty());
        }
        r
    }

    /// Takes note that the user has spoken.
    pub fn invalidate(&mut self)
        ensures
            final(self)@ == old(self)@.invalidated(),
    {
        self.dirty = true;
    }

    /// Whether there are threads to be taken up.
    pub fn has_open_threads(&self) -> (r: bool)
        ensures
            r == (self@.usable().len() > 0),
    {
        !self.dirty && self.threads.len() > 0
    }

    /// The threads to be taken up.
    pub fn current(&self) -> (r: Vec<String>)
        ensures
            views(r@) == self@.usable(),
    {
        if self.dirty {
            let none: Vec<String> = Vec::new();
            proof {
                assert(views(none@) =~= Seq::<Seq<char>>::empty());
            }
            return none;
        }
        copy_strings(&self.threads)
    }

    /// Keeps what was found, now.
    pub fn store(&mut self, threads: Vec<String>)
        ensures
            exists|now: Seconds|
                final(self)@ == #[trigger] old(self)@.stored(views(threads@), now),
    {
        self.store_at(threads, local_now().secs());
    }

    /// Keeps what was found at `now`.
    pub fn store_at(&mut self, threads: Vec<String>, now: Seconds)
        ensures
            final(self)@ == old(self)@.stored(views(threads@), now),
    {
        self.threads = threads;
        self.last_computed_at = now;
        self.dirty = false;
    }

    /// Whether the last detection is long enough ago now.
    pub fn cooldown_passed(&self) -> (r: bool)
        ensures
            exists|now: Seconds| r == #[trigger] self@.rested(now),
    {
        self.cooldown_passed_at(local_now().secs())
    }

    /// Whether the last detection is long enough ago at `now`.
    pub fn cooldown_passed_at(&self, now: Seconds) -> (r: bool)
        ensures
            r == self@.rested(now),
    {
        now.micros as i128 - self.last_computed_at.micros as i128
            >= OPEN_THREADS_COOLDOWN_SECONDS as i128 * 1_000_000
    }

    /// Whether threads are to be looked for now.
    pub fn should_recompute(&self) -> (r: bool)
        ensures
            exists|now: Seconds| r == #[trigger] self@.due(now),
    {
        self.should_recompute_at(local_now().secs())
    }

    /// Whether threads are to be looked for at `now`: the user has spoken, and the
    /// last detection is long enough ago.
    pub fn should_recompute_at(&self, now: Seconds) -> (r: bool)
        ensures
            r == self@.due(now),
    {
        self.dirty && self.cooldown_passed_at(now)
    }
}

/// What was stored is taken up until the user speaks, and then not any more.
pub proof fn law_threads_until_next_message(c: ThreadsView, threads: Seq<Seq<char>>, now: Seconds)
    ensures
        c.stored(threads, now).usable() == threads,
        c.stored(threads, now).invalidated().usable().len() == 0,
{
}

/// After a detection none follows until the user has spoken, and then one follows
/// once the pause is over.
pub proof fn law_detection_pause(
    c: ThreadsView,
    threads: Seq<Seq<char>>,
    t0: Seconds,
    t1: Seconds,
)
    ensures
        !c.stored(threads, t0).due(t1),
        c.stored(threads, t0).invalidated().due(t1) <==> t1.micros - t0.micros >= 60_000_000,
{
}

// ---------------------------------------------------------------------------
// Detection
// ---------------------------------------------------------------------------

/// The request that asks the model for talk for open threads.
pub open spec fn threads_request(config: Option<Seq<char>>, conversation: Seq<char>) -> JsonView {
    request(
        chat_model_of(config),
        briefed(
            "你是对话回顾助手，只输出 JSON。"@,
            JsonView::Text(replaced(OPEN_THREADS_PROMPT@, "{CONVERSATION}"@, conversation)),
        ),
        Some(512),
        true,
    )
}

/// The request that asks the model for talk for open threads.
pub fn open_threads_request(config: Option<&str>, conversation: &str) -> (r: Json)
    ensures
        r@ == threads_request(content_view(config), conversation@),
{
    proof {
        reveal_strlit("{CONVERSATION}");
    }
    let prompt = replace(OPEN_THREADS_PROMPT, "{CONVERSATION}", conversation);
    briefed_request(
        chat_model(config).as_str(),
        "你是对话回顾助手，只输出 JSON。",
        text_json(prompt.as_str()),
        Some(512),
        true,
    )
}

/// The texts among documents.
pub open spec fn texts_among(items: Seq<JsonView>) -> Seq<Seq<char>>
    decreases items.len(),
{
    if items.len() == 0 {
        Seq::empty()
    } else {
        let rest = texts_among(items.drop_last());
        match items.last().text() {
            Some(t) => rest.push(t),
            None => rest,
        }
    }
}

/// The threads that a document lists.
pub open spec fn threads_listed(v: JsonView) -> Seq<Seq<char>> {
    match v.items_at("open_threads"@) {
        Some(items) => texts_among(items),
        None => Seq::empty(),
    }
}

/// The threads that an answer lists; none where it is no JSON.
pub open spec fn threads_in(raw: Seq<char>) -> Seq<Seq<char>> {
    match json_read(unfenced(raw)) {
        Ok(v) => threads_listed(v),
        Err(_) => Seq::empty(),
    }
}

/// The texts among documents.
pub fn list_texts(items: &Vec<Json>) -> (r: Vec<String>)
    ensures
        views(r@) == texts_among(json_views(items@)),
{
    let ghost all = json_views(items@);
    let mut out: Vec<String> = Vec::new();
    let mut i: usize = 0;
    proof {
        assert(views(out@) =~= texts_among(all.take(0)));
    }
    while i < items.len()
        invariant
            i <= items.len(),
            all == json_views(items@),
            views(out@) == texts_among(all.take(i as int)),
        decreases items.len() - i,
    {
        let ghost before = views(out@);
        proof {
            assert(all.take(i + 1).drop_last() =~= all.take(i as int));
            assert(all.take(i + 1).last() == items@[i as int]@);
        }
        if let Some(t) = items[i].as_str() {
            let t = t.to_string();
            out.push(t);
            proof {
                assert(views(out@) =~= before.push(t@));
            }
        }
        i = i + 1;
    }
    proof {
        assert(all.take(i as int) =~= all);
    }
    out
}

/// The threads that a document lists.
pub fn listed_threads(v: &Json) -> (r: Vec<String>)
    ensures
        views(r@) == threads_listed(v@),
{
    match v.items_at("open_threads") {
        Some(items) => list_texts(items),
        None => {
            let none: Vec<String> = Vec::new();
            proof {
                assert(views(none@) =~= Seq::<Seq<char>>::empty());
            }
            none
        },
    }
}

/// The threads that an answer lists; none where it is no JSON.
pub fn parse_open_threads_json(raw: &str) -> (r: Vec<String>)
    ensures
        views(r@) == threads_in(raw@),
{
    let text = strip_fence(raw);
    match read_json(text.as_str()) {
        Ok(v) => listed_threads(&v),
        Err(_) => {
            let none: Vec<String> = Vec::new();
            proof {
                assert(views(none@) =~= Seq::<Seq<char>>::empty());
            }
            none
        },
    }
}

/// The threads trimmed, each once, without blank ones.
pub open spec fn distinct_threads(threads: Seq<Seq<char>>) -> Seq<Seq<char>>
    decreases threads.len(),
{
    if threads.len() == 0 {
        Seq::empty()
    } else {
        let rest = distinct_threads(threads.drop_last());
        let t = trimmed(threads.last());
        if t.len() == 0 || rest.contains(t) {
            rest
        } else {
            rest.push(t)
        }
    }
}

/// The first threads, trimmed, each once, without blank ones.
pub open spec fn threads_kept(threads: Seq<Seq<char>>) -> Seq<Seq<char>> {
    at_most(distinct_threads(threads), OPEN_THREADS_MAX as int)
}

/// Texts trimmed, each once, without blank ones.
pub fn distinct_texts(threads: &Vec<String>) -> (r: Vec<String>)
    ensures
        views(r@) == distinct_threads(views(threads@)),
{
    let ghost all = views(threads@);
    let mut out: Vec<String> = Vec::new();
    let mut i: usize = 0;
    proof {
        assert(views(out@) =~= distinct_threads(all.take(0)));
    }
    while i < threads.len()
        invariant
            i <= threads.len(),
            all == views(threads@),
            views(out@) == distinct_threads(all.take(i as int)),
        decreases threads.len() - i,
    {
        let ghost before = views(out@);
        proof {
            assert(all.take(i + 1).drop_last() =~= all.take(i as int));
            assert(all.take(i + 1).last() == threads@[i as int]@);
        }
        let t = trim(threads[i].as_str());
        if !is_empty(t.as_str()) && !holds_string(&out, t.as_str()) {
            out.push(t);
            proof {
                assert(views(out@) =~= before.push(t@));
            }
        }
        i = i + 1;
    }
    proof {
        assert(all.take(i as int) =~= all);
    }
    out
}

/// The first threads, trimmed, each once, without blank ones.
pub fn clean_threads(threads: &Vec<String>) -> (r: Vec<String>)
    ensures
        views(r@) == threads_kept(views(threads@)),
{
    let all = distinct_texts(threads);
    let ghost said = views(all@);
    let r = crate::order::shorten(all, OPEN_THREADS_MAX);
    proof {
        assert(views(r@) =~= at_most(said, OPEN_THREADS_MAX as int));
    }
    r
}

/// The threads in a reply: three at most, trimmed, each once.
pub fn detect_open_threads(body: &Json) -> (r: Result<Vec<String>, String>)
    ensures
        match content_of(body@) {
            None => r matches Err(e) && e@ == "未收尾话题检测响应无内容"@,
            Some(content) => r matches Ok(ts) && views(ts@) == threads_kept(threads_in(content)),
        },
{
    match reply_content(body) {
        None => Err("未收尾话题检测响应无内容".to_string()),
        Some(content) => Ok(clean_threads(&parse_open_threads_json(content))),
    }
}

/// The threads that are kept are three at most, none of them blank, and no two the
/// same.
pub proof fn law_threads_kept(threads: Seq<Seq<char>>)
    ensures
        threads_kept(threads).len() <= OPEN_THREADS_MAX,
        threads_kept(threads).no_duplicates(),
        forall|i: int|
            0 <= i < threads_kept(threads).len() ==> (#[trigger] threads_kept(threads)[i]).len() > 0,
{
    lemma_distinct_threads(threads);
}

proof fn lemma_distinct_threads(threads: Seq<Seq<char>>)
    ensures
        distinct_threads(threads).no_duplicates(),
        forall|i: int|
            0 <= i < distinct_threads(threads).len() ==> (#[trigger] distinct_threads(
                threads,
            )[i]).len() > 0,
    decreases threads.len(),
{
    if threads.len() > 0 {
        lemma_distinct_threads(threads.drop_last());
    }
}

} // verus!
