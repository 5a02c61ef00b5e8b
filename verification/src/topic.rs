//! Topics that matter to the user: gathering the turns that tell of them, choosing
//! among them, and bringing one up now and then.

use crate::chat::{
    briefed, briefed_request, content_of, reply_content, request, strip_fence, text_json, unfenced,
};
use crate::clock::{clamp_i64, local_now, nearest_i64, quotient, Seconds, DATE_FORMAT};
use crate::config::{chat_model, chat_model_of, content_view, memory_model, memory_model_of};
use crate::json::{json_read, json_views, read_json, Json, JsonView};
use crate::memory::{copy_jsons, copy_strings, last_of};
use crate::open_threads::{distinct_threads, list_texts, texts_among};
use crate::order::{at_most, select, shorten, sorted_by, stable_sort};
use crate::proactive::{bigram_set, bigrams, same_remark, shared, BigramSet, Ratio};
use crate::text::{
    alphanumeric, chars_of, char_len, decimal, decimal_u64, digits, drop_back, head, hex, is_empty,
    is_white, is_white_spec, join, joined, lemma_drop_back, lemma_trimmed, lowercase_of, replace,
    replaced, same_text, solid, str_views, take_chars, trim, trimmed, views,
};
use vstd::prelude::*;

verus! {

// ---------------------------------------------------------------------------
// Constants
// ---------------------------------------------------------------------------

/// Seconds between two topics.
pub const MIN_TOPIC_TRIGGER_GAP_SECONDS: i64 = 14_400;

/// Weights are counted in parts of this.
pub const TOPIC_WEIGHT_ONE: i64 = 3_000_000;

/// The weight of the topics of one day.
pub const MAX_DAILY_TOPIC_TRIGGERS: i64 = 6_000_000;

/// The part of the weight of a day that may be missing for it to count as full.
pub const QUOTA_TOLERANCE: i64 = 3;

/// The weight of a topic that was not answered.
pub const UNANSWERED_TOPIC_WEIGHT: i64 = 1_000_000;

/// Seconds for which a topic counts as used.
pub const USED_TOPIC_RECENT_SECONDS: i64 = 172_800;

/// Seconds within which a message of the user answers a topic.
pub const TOPIC_RESPONSE_WINDOW_SECONDS: i64 = 600;

/// Seconds of silence before the turns are looked at.
pub const CANDIDATE_MATURE_SECONDS: i64 = 60;

/// The most turns that are kept.
pub const MAX_SIGNAL_TURNS: usize = 60;

/// Seconds for which turns are kept.
pub const SIGNAL_RETENTION_SECONDS: i64 = 43_200;

/// Turns of the user that say something before they are looked at.
pub const MIN_USER_TURNS_FOR_TOPIC: usize = 8;

/// The least relevance of a topic.
pub const TOPIC_RELEVANCE_MIN: i32 = 70;

/// The greatest risk of a topic.
pub const TOPIC_RISK_MAX: i32 = 65;

/// Seconds between two looks at the turns.
pub const ANALYSIS_COOLDOWN_SECONDS: i64 = 600;

/// The most characters of a turn.
pub const TURN_CHARS: usize = 500;

/// The most topics of an answer that are read.
pub const READ_TOPICS: usize = 4;

/// The most topics that are kept.
pub const KEPT_TOPICS: usize = 2;

/// The most keywords of a topic.
pub const MAX_KEYWORDS: usize = 6;

/// Microseconds of a second.
pub const SECOND: i64 = 1_000_000;

// ---------------------------------------------------------------------------
// Data
// ---------------------------------------------------------------------------

/// A turn of the conversation.
#[derive(Debug, Clone)]
pub struct TopicTurnSignal {
    /// `user` or `ai`.
    pub actor: String,
    pub text: String,
    pub timestamp: Seconds,
}

/// The contents of a turn.
pub struct TurnView {
    pub actor: Seq<char>,
    pub text: Seq<char>,
    pub timestamp: Seconds,
}

impl View for TopicTurnSignal {
    type V = TurnView;

    open spec fn view(&self) -> TurnView {
        TurnView { actor: self.actor@, text: self.text@, timestamp: self.timestamp }
    }
}

/// The contents of each turn.
pub open spec fn turn_views(v: Seq<TopicTurnSignal>) -> Seq<TurnView> {
    v.map_values(|t: TopicTurnSignal| t@)
}

/// A topic to be brought up.
#[derive(Debug, Clone)]
pub struct TopicMaterial {
    pub hook_id: String,
    pub interest: String,
    pub keywords: Vec<String>,
    pub relevance: i32,
    pub risk: i32,
    /// `pending` or `used`.
    pub status: String,
    pub created_at: Seconds,
}

/// The contents of a topic.
pub struct MaterialView {
    pub hook_id: Seq<char>,
    pub interest: Seq<char>,
    pub keywords: Seq<Seq<char>>,
    pub relevance: i32,
    pub risk: i32,
    pub status: Seq<char>,
    pub created_at: Seconds,
}

impl View for TopicMaterial {
    type V = MaterialView;

    open spec fn view(&self) -> MaterialView {
        MaterialView {
            hook_id: self.hook_id@,
            interest: self.interest@,
            keywords: views(self.keywords@),
            relevance: self.relevance,
            risk: self.risk,
            status: self.status@,
            created_at: self.created_at,
        }
    }
}

/// The contents of each topic.
pub open spec fn material_views(v: Seq<TopicMaterial>) -> Seq<MaterialView> {
    v.map_values(|m: TopicMaterial| m@)
}

impl TopicMaterial {
    /// The same topic once more.
    pub fn copy(&self) -> (r: TopicMaterial)
        ensures
            r@ == self@,
    {
        TopicMaterial {
            hook_id: self.hook_id.as_str().to_string(),
            interest: self.interest.as_str().to_string(),
            keywords: copy_strings(&self.keywords),
            relevance: self.relevance,
            risk: self.risk,
            status: self.status.as_str().to_string(),
            created_at: self.created_at,
        }
    }
}

/// A topic that was brought up.
#[derive(Debug, Clone)]
pub struct UsedTopicRecord {
    pub used_at: Seconds,
    /// In parts of `TOPIC_WEIGHT_ONE`; missing where it is no number.
    pub weight: Option<i64>,
    pub interest: String,
    pub keywords: Vec<String>,
    /// Until when a message of the user answers it.
    pub response_deadline: Option<Seconds>,
}

/// The contents of a record.
pub struct UsedView {
    pub used_at: Seconds,
    pub weight: Option<i64>,
    pub interest: Seq<char>,
    pub keywords: Seq<Seq<char>>,
    pub response_deadline: Option<Seconds>,
}

impl View for UsedTopicRecord {
    type V = UsedView;

    open spec fn view(&self) -> UsedView {
        UsedView {
            used_at: self.used_at,
            weight: self.weight,
            interest: self.interest@,
            keywords: views(self.keywords@),
            response_deadline: self.response_deadline,
        }
    }
}

/// The contents of each record.
pub open spec fn used_views(v: Seq<UsedTopicRecord>) -> Seq<UsedView> {
    v.map_values(|r: UsedTopicRecord| r@)
}

/// The turns, the topics to be brought up, and those that were.
pub struct TopicPool {
    pub dir: String,
    pub signals: Vec<TopicTurnSignal>,
    pub materials: Vec<TopicMaterial>,
    pub used_topics: Vec<UsedTopicRecord>,
    /// There are turns that have not been looked at.
    pub dirty: bool,
    /// When the turns were looked at last.
    pub last_analysis_at: Seconds,
}

/// The contents of the pool.
pub struct PoolView {
    pub dir: Seq<char>,
    pub signals: Seq<TurnView>,
    pub materials: Seq<MaterialView>,
    pub used: Seq<UsedView>,
    pub dirty: bool,
    pub last_analysis_at: Seconds,
}

impl View for TopicPool {
    type V = PoolView;

    open spec fn view(&self) -> PoolView {
        PoolView {
            dir: self.dir@,
            signals: turn_views(self.signals@),
            materials: material_views(self.materials@),
            used: used_views(self.used_topics@),
            dirty: self.dirty,
            last_analysis_at: self.last_analysis_at,
        }
    }
}

// ---------------------------------------------------------------------------
// Turns
// ---------------------------------------------------------------------------

/// A text with one space in the place of each run of white space behind its first
/// character.
pub open spec fn collapsed(s: Seq<char>) -> Seq<char>
    decreases s.len(),
{
    if s.len() == 0 {
        Seq::empty()
    } else {
        let rest = collapsed(s.drop_last());
        let c = s.last();
        if !is_white_spec(c) {
            rest.push(c)
        } else if rest.len() > 0 && !is_white_spec(s[s.len() - 2]) {
            rest.push(' ')
        } else {
            rest
        }
    }
}

/// A turn as it is kept: without white space round it, with single spaces in it, and
/// cut to its first characters.
pub open spec fn cleaned(text: Seq<char>) -> Seq<char> {
    trimmed(head(collapsed(trimmed(text)), TURN_CHARS as int))
}

/// A turn as it is kept.
pub fn clean_text(text: &str) -> (r: String)
    ensures
        r@ == cleaned(text@),
{
    let t = trim(text);
    let cs = chars_of(t.as_str());
    let mut out = String::new();
    let mut prev_space: bool = false;
    let mut empty: bool = true;
    let mut i: usize = 0;
    proof {
        assert(out@ =~= collapsed(cs@.take(0)));
    }
    while i < cs.len()
        invariant
            i <= cs.len(),
            out@ == collapsed(cs@.take(i as int)),
            empty == (out@.len() == 0),
            prev_space == (i > 0 && is_white_spec(cs@[i - 1])),
        decreases cs.len() - i,
    {
        let c = cs[i];
        proof {
            let part = cs@.take(i + 1);
            assert(part.drop_last() =~= cs@.take(i as int));
            assert(part.last() == c);
            if i > 0 {
                assert(part[part.len() - 2] == cs@[i - 1]);
            }
        }
        if is_white(c) {
            if !prev_space && !empty {
                out.push(' ');
            }
            prev_space = true;
        } else {
            out.push(c);
            empty = false;
            prev_space = false;
        }
        i = i + 1;
    }
    proof {
        assert(cs@.take(i as int) =~= cs@);
    }
    trim(take_chars(out.as_str(), TURN_CHARS).as_str())
}

/// Whether white space at a place of a text is a single space behind something else.
pub open spec fn spaced_at(s: Seq<char>, i: int) -> bool {
    is_white_spec(s[i]) ==> s[i] == ' ' && i > 0 && !is_white_spec(s[i - 1])
}

/// Whether all white space of a text is single spaces behind something else.
pub open spec fn tidy(s: Seq<char>) -> bool {
    forall|i: int| 0 <= i < s.len() ==> #[trigger] spaced_at(s, i)
}

proof fn lemma_collapsed(s: Seq<char>)
    ensures
        tidy(collapsed(s)),
        solid(collapsed(s)) == solid(s),
        s.len() > 0 && !is_white_spec(s.last()) ==> collapsed(s).len() > 0 && collapsed(s).last()
            == s.last(),
        s.len() > 0 && !is_white_spec(s[0]) ==> collapsed(s).len() > 0,
    decreases s.len(),
{
    reveal(Seq::filter);
    if s.len() > 0 {
        let part = s.drop_last();
        let rest = collapsed(part);
        let c = s.last();
        lemma_collapsed(part);
        if !is_white_spec(c) || rest.len() > 0 && !is_white_spec(s[s.len() - 2]) {
            let r = collapsed(s);
            assert(r.drop_last() =~= rest);
            assert forall|i: int| 0 <= i < r.len() implies #[trigger] spaced_at(r, i) by {
                if i < rest.len() {
                    assert(spaced_at(rest, i));
                } else if is_white_spec(c) {
                    assert(part.last() == s[s.len() - 2]);
                    assert(r[i - 1] == rest.last());
                }
            }
        }
        if part.len() > 0 {
            assert(part[0] == s[0]);
        }
    }
}

proof fn lemma_collapsed_is_kept(s: Seq<char>)
    requires
        tidy(s),
    ensures
        collapsed(s) == s,
    decreases s.len(),
{
    if s.len() > 0 {
        let part = s.drop_last();
        assert forall|i: int| 0 <= i < part.len() implies #[trigger] spaced_at(part, i) by {
            assert(spaced_at(s, i));
        }
        lemma_collapsed_is_kept(part);
        assert(spaced_at(s, s.len() - 1));
        assert(collapsed(s) =~= s);
    }
}

proof fn lemma_solid_prefix(s: Seq<char>, n: int)
    requires
        0 <= n <= s.len(),
    ensures
        solid(s.take(n)).is_prefix_of(solid(s)),
    decreases s.len() - n,
{
    reveal(Seq::filter);
    if n < s.len() {
        lemma_solid_prefix(s, n + 1);
        assert(s.take(n + 1).drop_last() =~= s.take(n));
    } else {
        assert(s.take(n) =~= s);
    }
}

/// A cleaned text has at most five hundred characters. It neither starts nor ends with
/// white space, and between its words there are single spaces. It is empty if nothing but
/// white space was there. Its other characters are the first of the text, and all of
/// them where it has less than 499 characters. Cleaning it again changes nothing.
pub proof fn law_cleaned(text: Seq<char>)
    ensures
        cleaned(text).len() <= 500,
        cleaned(text).len() > 0 ==> !is_white_spec(cleaned(text)[0]) && !is_white_spec(
            cleaned(text).last(),
        ),
        forall|i: int|
            0 <= i < cleaned(text).len() && is_white_spec(#[trigger] cleaned(text)[i])
                ==> cleaned(text)[i] == ' ' && 0 < i < cleaned(text).len() - 1 && !is_white_spec(
                cleaned(text)[i - 1],
            ) && !is_white_spec(cleaned(text)[i + 1]),
        cleaned(text).len() == 0 <==> trimmed(text).len() == 0,
        solid(cleaned(text)).is_prefix_of(solid(text)),
        cleaned(text).len() < 499 ==> solid(cleaned(text)) == solid(text),
        cleaned(cleaned(text)) == cleaned(text),
{
    let t = trimmed(text);
    let c = collapsed(t);
    let h = head(c, TURN_CHARS as int);
    let r = cleaned(text);
    let p = |x: char| is_white_spec(x);
    lemma_trimmed(text);
    lemma_collapsed(t);
    lemma_trimmed(h);
    lemma_drop_back(h, p);
    assert(h == c.take(h.len() as int)) by {
        assert(c.take(c.len() as int) =~= c);
    }
    lemma_solid_prefix(c, h.len() as int);
    if t.len() > 0 {
        assert(spaced_at(c, 0));
        assert(h[0] == c[0]);
        assert(r == drop_back(h, p));
        assert forall|i: int| 0 <= i < r.len() implies #[trigger] spaced_at(r, i) by {
            assert(spaced_at(c, i));
        }
        assert forall|i: int| 0 <= i < r.len() && is_white_spec(#[trigger] r[i]) implies r[i] == ' '
            && 0 < i < r.len() - 1 && !is_white_spec(r[i - 1]) && !is_white_spec(r[i + 1]) by {
            assert(spaced_at(r, i));
            assert(i != r.len() - 1);
            assert(spaced_at(r, i + 1));
        }
        if r.len() < 499 && c.len() > 500 {
            assert forall|i: int| 0 <= i < h.len() implies #[trigger] spaced_at(h, i) by {
                assert(spaced_at(c, i));
            }
            lemma_one_space_at_most(h);
        }
        lemma_trimmed(r);
        assert(drop_back(r, p) == r);
        lemma_collapsed_is_kept(r);
    } else {
        assert(c =~= Seq::<char>::empty());
        assert(r =~= Seq::<char>::empty());
        assert(trimmed(r) =~= r);
        assert(cleaned(r) =~= r);
    }
}

/// A tidy text ends with one space at most.
proof fn lemma_one_space_at_most(s: Seq<char>)
    requires
        tidy(s),
        s.len() > 0,
    ensures
        drop_back(s, |c: char| is_white_spec(c)).len() >= s.len() - 1,
{
    reveal_with_fuel(drop_back, 3);
    assert(spaced_at(s, s.len() - 1));
}

/// Texts that say nothing by themselves.
pub open spec fn filler_texts() -> Seq<Seq<char>> {
    seq![
        "你好"@, "啊"@, "嗯"@, "哦"@, "好"@, "可以"@, "对"@, "對"@, "行"@, "行吧"@, "哈哈"@,
        "没事"@, "沒事"@, "不知道"@,
    ]
}

fn filler_table() -> (r: Vec<&'static str>)
    ensures
        str_views(r@) == filler_texts(),
{
    let r: Vec<&'static str> = vec![
        "你好", "啊", "嗯", "哦", "好", "可以", "对", "對", "行", "行吧", "哈哈", "没事",
        "沒事", "不知道",
    ];
    proof {
        assert(str_views(r@) =~= filler_texts());
    }
    r
}

/// Characters that carry meaning: Chinese characters, letters and numbers.
pub open spec fn carries_meaning(c: char) -> bool {
    ('\u{4e00}' <= c && c <= '\u{9fff}') || alphanumeric(c)
}

/// How many characters carry meaning.
pub open spec fn meaning_of(s: Seq<char>) -> nat {
    s.filter(|c: char| carries_meaning(c)).len()
}

/// Whether a turn says something: it is no filler, and three characters or more carry
/// meaning.
pub open spec fn says_something(text: Seq<char>) -> bool {
    !filler_texts().contains(cleaned(text)) && meaning_of(cleaned(text)) >= 3
}

fn count_meaning(s: &str) -> (n: usize)
    ensures
        n == meaning_of(s@),
{
    let cs = chars_of(s);
    let ghost p = |c: char| carries_meaning(c);
    let mut n: usize = 0;
    let mut i: usize = 0;
    proof {
        reveal(Seq::filter);
        assert(cs@.take(0).filter(p).len() == 0);
    }
    while i < cs.len()
        invariant
            i <= cs.len(),
            n <= i,
            p == (|c: char| carries_meaning(c)),
            n == cs@.take(i as int).filter(p).len(),
        decreases cs.len() - i,
    {
        let c = cs[i];
        proof {
            reveal(Seq::filter);
            assert(cs@.take(i + 1).drop_last() =~= cs@.take(i as int));
            assert(cs@.take(i + 1).last() == c);
        }
        if ('\u{4e00}' <= c && c <= '\u{9fff}') || c.is_alphanumeric() {
            n = n + 1;
        }
        i = i + 1;
    }
    proof {
        assert(cs@.take(i as int) =~= cs@);
    }
    n
}

/// Whether `table` holds `text`.
fn in_table(table: &Vec<&'static str>, text: &str) -> (r: bool)
    ensures
        r == str_views(table@).contains(text@),
{
    let ghost all = str_views(table@);
    let mut i: usize = 0;
    while i < table.len()
        invariant
            i <= table.len(),
            all == str_views(table@),
            forall|k: int| 0 <= k < i ==> #[trigger] all[k] != text@,
        decreases table.len() - i,
    {
        proof {
            assert(all[i as int] == table@[i as int]@);
        }
        if same_text(table[i], text) {
            assert(all[i as int] == text@);
            return true;
        }
        i = i + 1;
    }
    false
}

/// Whether a turn says something.
pub fn is_meaningful_turn(text: &str) -> (r: bool)
    ensures
        r == says_something(text@),
{
    let t = clean_text(text);
    if in_table(&filler_table(), t.as_str()) {
        return false;
    }
    count_meaning(t.as_str()) >= 3
}

/// Whether a turn is still kept at `now`.
pub open spec fn is_kept(t: TurnView, now: Seconds) -> bool {
    now.micros - t.timestamp.micros <= SIGNAL_RETENTION_SECONDS * SECOND
}

/// The turns that are kept at `now`: those that are not too old, and the last of them.
pub open spec fn turns_kept(turns: Seq<TurnView>, now: Seconds) -> Seq<TurnView> {
    last_of(turns.filter(|t: TurnView| is_kept(t, now)), MAX_SIGNAL_TURNS as int)
}

/// The turns that are kept at `now`.
pub fn keep_turns(turns: Vec<TopicTurnSignal>, now: Seconds) -> (r: Vec<TopicTurnSignal>)
    ensures
        turn_views(r@) == turns_kept(turn_views(turns@), now),
{
    let f = |t: &TopicTurnSignal| -> (c: bool)
        ensures
            c == is_kept(t@, now),
        {
            now.micros as i128 - t.timestamp.micros as i128 <= (SIGNAL_RETENTION_SECONDS
                * SECOND) as i128
        };
    let mut kept = select(turns, f, Ghost(|t: TurnView| is_kept(t, now)));
    let ghost said = turn_views(kept@);
    let n: usize = kept.len();
    if n > MAX_SIGNAL_TURNS {
        let tail = kept.split_off(n - MAX_SIGNAL_TURNS);
        proof {
            assert(turn_views(tail@) =~= said.skip(n - MAX_SIGNAL_TURNS));
        }
        tail
    } else {
        kept
    }
}

/// Who speaks.
pub open spec fn actor_of(actor: Seq<char>) -> Seq<char> {
    if actor == "user"@ {
        "user"@
    } else {
        "ai"@
    }
}

/// The number of turns of the user that say something, among the first `n`.
pub open spec fn meaningful_upto(turns: Seq<TurnView>, n: int) -> nat
    decreases n,
{
    if n <= 0 {
        0
    } else {
        meaningful_upto(turns, n - 1) + if turns[n - 1].actor == "user"@ && says_something(
            turns[n - 1].text,
        ) {
            1nat
        } else {
            0nat
        }
    }
}

/// A span of time in words; one below nothing counts as nothing.
pub open spec fn age_words(micros: int) -> Seq<char> {
    if micros < 0 {
        decimal(0) + "s前"@
    } else if micros < 90 * SECOND {
        decimal(micros / (SECOND as int)) + "s前"@
    } else if micros < 3600 * SECOND {
        decimal(micros / (60 * SECOND)) + "min前"@
    } else {
        decimal(micros / (3600 * SECOND)) + "h前"@
    }
}

/// A span of time in words; one below nothing counts as nothing.
pub fn format_age(age: Seconds) -> (r: String)
    ensures
        r@ == age_words(age.micros as int),
{
    let n: u64 = if age.micros < 0 {
        0
    } else {
        age.micros as u64
    };
    if age.micros < 90 * SECOND {
        let mut out = decimal_u64(n / 1_000_000);
        out.append("s前");
        out
    } else if age.micros < 3600 * SECOND {
        let mut out = decimal_u64(n / 60_000_000);
        out.append("min前");
        out
    } else {
        let mut out = decimal_u64(n / 3_600_000_000);
        out.append("h前");
        out
    }
}

/// How long before `base` a turn was, and never less than nothing.
pub open spec fn age_before(base: Seconds, t: TurnView) -> i64 {
    let n = clamp_i64(base.micros - t.timestamp.micros);
    if n < 0 {
        0
    } else {
        n
    }
}

/// A turn as it is shown to the model.
pub open spec fn signal_line(base: Seconds, t: TurnView) -> Seq<char> {
    "- ["@ + age_words(age_before(base, t) as int) + "] "@ + if t.actor == "user"@ {
        "用户"@
    } else {
        "AI"@
    } + ": "@ + t.text
}

/// The turns as they are shown to the model, with their age before the last one.
pub open spec fn signals_shown(turns: Seq<TurnView>) -> Seq<char> {
    joined(turns.map_values(|t: TurnView| signal_line(turns.last().timestamp, t)), "\n"@)
}

impl PoolView {
    /// A pool without anything in it.
    pub open spec fn blank(dir: Seq<char>) -> PoolView {
        PoolView {
            dir,
            signals: Seq::empty(),
            materials: Seq::empty(),
            used: Seq::empty(),
            dirty: false,
            last_analysis_at: (Seconds { micros: 0 }),
        }
    }

    /// After a turn at `now`; a blank one is not taken in. A turn of the user also
    /// answers the topics that wait for one.
    pub open spec fn turned(self, actor: Seq<char>, text: Seq<char>, now: Seconds) -> PoolView {
        if cleaned(text).len() == 0 {
            self
        } else {
            let after = PoolView {
                signals: turns_kept(
                    self.signals.push(
                        TurnView { actor: actor_of(actor), text: cleaned(text), timestamp: now },
                    ),
                    now,
                ),
                dirty: true,
                ..self
            };
            if actor == "user"@ {
                after.answered(now)
            } else {
                after
            }
        }
    }

    /// After a message of the user at `now`: the topics that wait for one get their
    /// full weight.
    pub open spec fn answered(self, now: Seconds) -> PoolView {
        PoolView { used: self.used.map_values(|r: UsedView| record_answered(r, now)), ..self }
    }

    /// How many turns of the user say something.
    pub open spec fn meaningful(self) -> nat {
        meaningful_upto(self.signals, self.signals.len() as int)
    }

    /// Whether there are turns enough to look at.
    pub open spec fn ready(self) -> bool {
        self.meaningful() >= MIN_USER_TURNS_FOR_TOPIC
    }

    /// Whether a topic waits to be brought up.
    pub open spec fn has_pending(self) -> bool {
        exists|i: int|
            0 <= i < self.materials.len() && (#[trigger] self.materials[i]).status == "pending"@
    }
}

/// A record after a message of the user at `now`.
pub open spec fn record_answered(r: UsedView, now: Seconds) -> UsedView {
    if r.response_deadline is Some && now.micros <= r.response_deadline->0.micros && r.weight is Some
        && r.weight->0 < TOPIC_WEIGHT_ONE {
        UsedView { weight: Some(TOPIC_WEIGHT_ONE), response_deadline: None, ..r }
    } else {
        r
    }
}

impl TopicPool {
    /// A pool without anything in it.
    pub fn new(dir: String) -> (r: TopicPool)
        ensures
            r@ == PoolView::blank(dir@),
    {
        let r = TopicPool {
            dir,
            signals: Vec::new(),
            materials: Vec::new(),
            used_topics: Vec::new(),
            dirty: false,
            last_analysis_at: Seconds { micros: 0 },
        };
        proof {
            assert(r@.signals =~= Seq::<TurnView>::empty());
            assert(r@.materials =~= Seq::<MaterialView>::empty());
            assert(r@.used =~= Seq::<UsedView>::empty());
        }
        r
    }

    /// The pool that was stored, at `now`. Turns that are too old or too many are
    /// dropped.
    pub fn load_persisted(
        dir: String,
        last_analysis_at: Option<Seconds>,
        turns: Vec<TopicTurnSignal>,
        materials: Vec<TopicMaterial>,
        used_topics: Vec<UsedTopicRecord>,
        now: Seconds,
    ) -> (r: TopicPool)
        ensures
            r@ == (PoolView {
                dir: dir@,
                signals: turns_kept(turn_views(turns@), now),
                materials: material_views(materials@),
                used: used_views(used_topics@),
                dirty: false,
                last_analysis_at: match last_analysis_at {
                    Some(t) => t,
                    None => Seconds { micros: 0 },
                },
            }),
    {
        TopicPool {
            dir,
            signals: keep_turns(turns, now),
            materials,
            used_topics,
            dirty: false,
            last_analysis_at: match last_analysis_at {
                Some(t) => t,
                None => Seconds { micros: 0 },
            },
        }
    }

    /// Takes in a turn, now.
    pub fn note_turn(&mut self, actor: &str, text: &str)
        ensures
            exists|now: Seconds| final(self)@ == #[trigger] old(self)@.turned(actor@, text@, now),
    {
        self.note_turn_at(actor, text, local_now().secs());
    }

    /// Takes in a turn at `now`.
    pub fn note_turn_at(&mut self, actor: &str, text: &str, now: Seconds)
        ensures
            final(self)@ == old(self)@.turned(actor@, text@, now),
    {
        let t = clean_text(text);
        if is_empty(t.as_str()) {
            return;
        }
        let by_user = same_text(actor, "user");
        let who = if by_user {
            "user"
        } else {
            "ai"
        };
        let mut all: Vec<TopicTurnSignal> = Vec::new();
        all.append(&mut self.signals);
        let ghost before = turn_views(all@);
        let turn = TopicTurnSignal { actor: who.to_string(), text: t, timestamp: now };
        let ghost said = turn@;
        all.push(turn);
        proof {
            assert(turn_views(all@) =~= before.push(said));
        }
        self.signals = keep_turns(all, now);
        self.dirty = true;
        if by_user {
            self.maybe_upgrade_topic_response(now);
        }
    }

    /// Gives the topics that wait for an answer their full weight, on a message of the
    /// user at `now`.
    pub fn maybe_upgrade_topic_response(&mut self, now: Seconds)
        ensures
            final(self)@ == old(self)@.answered(now),
    {
        let ghost first = self@;
        let ghost goal = first.used.map_values(|r: UsedView| record_answered(r, now));
        let mut rest: Vec<UsedTopicRecord> = Vec::new();
        rest.append(&mut self.used_topics);
        let ghost listed = used_views(rest@);
        proof {
            assert(listed =~= first.used);
        }
        let mut out: Vec<UsedTopicRecord> = Vec::new();
        let ghost mut done: int = 0;
        while rest.len() > 0
            invariant
                0 <= done <= listed.len(),
                used_views(rest@) =~= listed.skip(done),
                goal == listed.map_values(|r: UsedView| record_answered(r, now)),
                used_views(out@) =~= goal.take(done),
                self.dir@ == first.dir,
                turn_views(self.signals@) == first.signals,
                material_views(self.materials@) == first.materials,
                self.dirty == first.dirty,
                self.last_analysis_at == first.last_analysis_at,
            decreases rest.len(),
        {
            let ghost left = used_views(rest@);
            let ghost before = used_views(out@);
            let mut r = rest.remove(0);
            let ghost was = r@;
            proof {
                assert(left.len() == rest@.len() + 1);
                assert(left[0] == was);
                assert(listed.skip(done)[0] == listed[done]);
                assert(used_views(rest@) =~= left.skip(1));
                assert(left.skip(1) =~= listed.skip(done + 1));
            }
            let due: bool = match (r.response_deadline, r.weight) {
                (Some(d), Some(w)) => now.micros <= d.micros && w < TOPIC_WEIGHT_ONE,
                _ => false,
            };
            if due {
                r.weight = Some(TOPIC_WEIGHT_ONE);
                r.response_deadline = None;
            }
            let ghost said = r@;
            out.push(r);
            proof {
                assert(used_views(out@) =~= before.push(said));
                assert(said == record_answered(was, now));
                assert(goal.take(done + 1) =~= goal.take(done).push(goal[done]));
                done = done + 1;
            }
        }
        proof {
            assert(listed.skip(done).len() == 0);
            assert(goal.take(done) =~= goal);
        }
        self.used_topics = out;
    }

    /// How many turns of the user say something.
    pub fn meaningful_user_turns(&self) -> (n: usize)
        ensures
            n == self@.meaningful(),
    {
        let ghost all = turn_views(self.signals@);
        let mut n: usize = 0;
        let mut i: usize = 0;
        while i < self.signals.len()
            invariant
                i <= self.signals.len(),
                n <= i,
                all == turn_views(self.signals@),
                n == meaningful_upto(all, i as int),
            decreases self.signals.len() - i,
        {
            proof {
                assert(all[i as int] == self.signals@[i as int]@);
            }
            if same_text(self.signals[i].actor.as_str(), "user") && is_meaningful_turn(
                self.signals[i].text.as_str(),
            ) {
                n = n + 1;
            }
            i = i + 1;
        }
        n
    }

    /// Whether there are turns enough to look at.
    pub fn is_ready(&self) -> (r: bool)
        ensures
            r == self@.ready(),
    {
        self.meaningful_user_turns() >= MIN_USER_TURNS_FOR_TOPIC
    }

    /// The moment of the last turn.
    pub fn last_turn_at(&self) -> (r: Option<Seconds>)
        ensures
            match r {
                Some(t) => self@.signals.len() > 0 && t == self@.signals.last().timestamp,
                None => self@.signals.len() == 0,
            },
    {
        let n: usize = self.signals.len();
        if n == 0 {
            None
        } else {
            proof {
                assert(self@.signals.last() == self.signals@[n - 1]@);
            }
            Some(self.signals[n - 1].timestamp)
        }
    }

    /// The turns as they are shown to the model.
    pub fn format_global_signals(&self) -> (r: String)
        ensures
            r@ == signals_shown(self@.signals),
    {
        let ghost all = turn_views(self.signals@);
        let base = match self.last_turn_at() {
            Some(t) => t,
            None => Seconds { micros: 0 },
        };
        let ghost goal = all.map_values(|t: TurnView| signal_line(all.last().timestamp, t));
        let mut lines: Vec<String> = Vec::new();
        let mut i: usize = 0;
        while i < self.signals.len()
            invariant
                i <= self.signals.len(),
                all == turn_views(self.signals@),
                all.len() > 0 ==> base == all.last().timestamp,
                goal == all.map_values(|t: TurnView| signal_line(all.last().timestamp, t)),
                views(lines@) =~= goal.take(i as int),
            decreases self.signals.len() - i,
        {
            let ghost before = views(lines@);
            let t = &self.signals[i];
            let mut age = base.since(t.timestamp);
            if age.micros < 0 {
                age = Seconds { micros: 0 };
            }
            let mut line = "- [".to_string();
            line.append(format_age(age).as_str());
            line.append("] ");
            if same_text(t.actor.as_str(), "user") {
                line.append("用户");
            } else {
                line.append("AI");
            }
            line.append(": ");
            line.append(t.text.as_str());
            proof {
                assert(all[i as int] == t@);
                assert(line@ == signal_line(all.last().timestamp, t@));
            }
            lines.push(line);
            proof {
                assert(views(lines@) =~= before.push(line@));
                assert(goal.take(i + 1) =~= goal.take(i as int).push(goal[i as int]));
            }
            i = i + 1;
        }
        proof {
            assert(goal.take(i as int) =~= goal);
        }
        join(&lines, "\n")
    }

    /// Whether a topic waits to be brought up.
    pub fn has_pending_material(&self) -> (r: bool)
        ensures
            r == self@.has_pending(),
    {
        let ghost all = material_views(self.materials@);
        let mut i: usize = 0;
        while i < self.materials.len()
            invariant
                i <= self.materials.len(),
                all == material_views(self.materials@),
                all == self@.materials,
                forall|k: int| 0 <= k < i ==> (#[trigger] all[k]).status != "pending"@,
            decreases self.materials.len() - i,
        {
            proof {
                assert(all[i as int] == self.materials@[i as int]@);
            }
            if same_text(self.materials[i].status.as_str(), "pending") {
                assert(self@.materials[i as int].status == "pending"@);
                return true;
            }
            i = i + 1;
        }
        false
    }
}

/// No more turns are kept than may be, none that is too old, and the new one is among
/// them.
pub proof fn law_turns_bounded(p: PoolView, actor: Seq<char>, text: Seq<char>, now: Seconds)
    requires
        cleaned(text).len() > 0,
    ensures
        p.turned(actor, text, now).signals.len() <= MAX_SIGNAL_TURNS,
        forall|i: int|
            0 <= i < p.turned(actor, text, now).signals.len() ==> is_kept(
                #[trigger] p.turned(actor, text, now).signals[i],
                now,
            ),
        p.turned(actor, text, now).signals.last().text == cleaned(text),
{
    let t = TurnView { actor: actor_of(actor), text: cleaned(text), timestamp: now };
    let all = p.signals.push(t);
    let keep = |t: TurnView| is_kept(t, now);
    let kept = all.filter(keep);
    reveal(Seq::filter);
    assert(all.drop_last() =~= p.signals);
    assert(kept == p.signals.filter(keep).push(t));
    let after = p.turned(actor, text, now).signals;
    assert(after == last_of(kept, MAX_SIGNAL_TURNS as int));
    assert forall|i: int| 0 <= i < after.len() implies is_kept(#[trigger] after[i], now) by {
        let k = if kept.len() <= MAX_SIGNAL_TURNS {
            i
        } else {
            i + kept.len() - MAX_SIGNAL_TURNS
        };
        assert(after[i] == kept[k]);
        assert(kept.contains(kept[k]));
        crate::memory::lemma_filter_contains(all, keep, kept[k]);
    }
}

/// Turns of the companion never make the pool ready.
pub proof fn law_own_turns_do_not_count(turns: Seq<TurnView>, n: int)
    requires
        n <= turns.len(),
        forall|i: int| 0 <= i < turns.len() ==> (#[trigger] turns[i]).actor != "user"@,
    ensures
        meaningful_upto(turns, n) == 0,
    decreases n,
{
    if n > 0 {
        law_own_turns_do_not_count(turns, n - 1);
    }
}

// ---------------------------------------------------------------------------
// Topics that were brought up
// ---------------------------------------------------------------------------

/// Whether a record is recent at `now`.
pub open spec fn is_recent(r: UsedView, now: Seconds) -> bool {
    now.micros - r.used_at.micros <= USED_TOPIC_RECENT_SECONDS * SECOND
}

/// A keyword as it is compared.
pub open spec fn key_of(k: Seq<char>) -> Seq<char> {
    lowercase_of(trimmed(k))
}

/// Whether two lists of keywords have one in common.
pub open spec fn share_keyword(a: Seq<Seq<char>>, b: Seq<Seq<char>>) -> bool {
    exists|i: int, j: int|
        0 <= i < a.len() && 0 <= j < b.len() && key_of(#[trigger] a[i]) == key_of(#[trigger] b[j])
}

/// Whether two texts are on one topic: they share two pairs of characters or more, and
/// these are six tenths or more of the pairs of the shorter one.
pub open spec fn same_topic(a: Seq<char>, b: Seq<char>) -> bool {
    let least = if bigrams(a).len() <= bigrams(b).len() {
        bigrams(a).len()
    } else {
        bigrams(b).len()
    };
    shared(a, b) >= 2 && 100 * shared(a, b) >= 60 * least
}

/// Whether a record is recent and on the topic of a material.
pub open spec fn covers(r: UsedView, m: MaterialView, now: Seconds) -> bool {
    is_recent(r, now) && (share_keyword(m.keywords, r.keywords) || same_topic(
        m.interest,
        r.interest,
    ))
}

/// The weight of a record, between nothing and one; one where it is no number.
pub open spec fn weight_in(r: UsedView) -> int {
    match r.weight {
        None => TOPIC_WEIGHT_ONE as int,
        Some(w) => if w < 0 {
            0
        } else if w > TOPIC_WEIGHT_ONE {
            TOPIC_WEIGHT_ONE as int
        } else {
            w as int
        },
    }
}

/// The weight of those of the first `n` records that are of the day `today`; `days`
/// tells the day of each.
pub open spec fn weight_upto(
    used: Seq<UsedView>,
    days: Seq<Seq<char>>,
    today: Seq<char>,
    n: int,
) -> int
    decreases n,
{
    if n <= 0 {
        0
    } else {
        weight_upto(used, days, today, n - 1) + if days[n - 1] == today {
            weight_in(used[n - 1])
        } else {
            0
        }
    }
}

/// The moment of the latest of the first `n` records that are recent; the epoch where
/// there is none.
pub open spec fn latest_upto(used: Seq<UsedView>, now: Seconds, n: int) -> int
    decreases n,
{
    if n <= 0 {
        0
    } else {
        let rest = latest_upto(used, now, n - 1);
        if is_recent(used[n - 1], now) && used[n - 1].used_at.micros > rest {
            used[n - 1].used_at.micros as int
        } else {
            rest
        }
    }
}

impl PoolView {
    /// Whether a topic like this was brought up recently.
    pub open spec fn used_recently(self, m: MaterialView, now: Seconds) -> bool {
        exists|i: int| 0 <= i < self.used.len() && covers(#[trigger] self.used[i], m, now)
    }

    /// Whether the topics of today are enough; `days` tells the day of each record.
    pub open spec fn quota_full(self, days: Seq<Seq<char>>, today: Seq<char>) -> bool {
        weight_upto(self.used, days, today, self.used.len() as int) >= MAX_DAILY_TOPIC_TRIGGERS
            - QUOTA_TOLERANCE
    }

    /// Microseconds until the next topic may be brought up.
    pub open spec fn wait(self, now: Seconds) -> i64 {
        let latest = latest_upto(self.used, now, self.used.len() as int);
        let left = MIN_TOPIC_TRIGGER_GAP_SECONDS * SECOND - (now.micros - latest);
        if latest <= 0 || left <= 0 {
            0
        } else {
            clamp_i64(left)
        }
    }

    /// The topics that wait, the most relevant first.
    pub open spec fn pending_sorted(self) -> Seq<MaterialView> {
        sorted_by(
            self.materials.filter(|m: MaterialView| m.status == "pending"@),
            |a: MaterialView, b: MaterialView| a.relevance > b.relevance,
        )
    }

    /// The topic that may be brought up at `now`: the most relevant one that waits and
    /// is new, where the topics of today are not enough and the last one is long enough
    /// ago.
    pub open spec fn next(self, now: Seconds, full: bool) -> Option<MaterialView> {
        if full || self.wait(now) > 0 {
            None
        } else {
            first_new(self, self.pending_sorted(), now)
        }
    }
}

/// The first topic like which none was brought up recently.
pub open spec fn first_new(p: PoolView, ms: Seq<MaterialView>, now: Seconds) -> Option<MaterialView>
    decreases ms.len(),
{
    if ms.len() == 0 {
        None
    } else if !p.used_recently(ms[0], now) {
        Some(ms[0])
    } else {
        first_new(p, ms.drop_first(), now)
    }
}

fn keywords_meet(a: &Vec<String>, b: &Vec<String>) -> (r: bool)
    ensures
        r == share_keyword(views(a@), views(b@)),
{
    let ghost x = views(a@);
    let ghost y = views(b@);
    let mut i: usize = 0;
    while i < a.len()
        invariant
            i <= a.len(),
            x == views(a@),
            y == views(b@),
            forall|m: int, n: int|
                0 <= m < i && 0 <= n < y.len() ==> key_of(#[trigger] x[m]) != key_of(
                    #[trigger] y[n],
                ),
        decreases a.len() - i,
    {
        let k = trim(a[i].as_str());
        let key = k.as_str().to_lowercase();
        let mut j: usize = 0;
        while j < b.len()
            invariant
                i < a.len(),
                j <= b.len(),
                x == views(a@),
                y == views(b@),
                key@ == key_of(x[i as int]),
                forall|n: int| 0 <= n < j ==> key@ != key_of(#[trigger] y[n]),
            decreases b.len() - j,
        {
            let l = trim(b[j].as_str());
            let other = l.as_str().to_lowercase();
            proof {
                assert(y[j as int] == b@[j as int]@);
            }
            if same_text(key.as_str(), other.as_str()) {
                assert(key_of(x[i as int]) == key_of(y[j as int]));
                return true;
            }
            j = j + 1;
        }
        i = i + 1;
    }
    false
}

/// The pairs that two sets share over those of the smaller one; nothing where either is
/// empty.
pub fn topic_similarity(a: &BigramSet, b: &BigramSet) -> (r: Ratio)
    ensures
        ({
            let least = if a@.len() <= b@.len() {
                a@.len()
            } else {
                b@.len()
            };
            if a@.len() == 0 || b@.len() == 0 {
                r.num == 0 && r.den == 1
            } else {
                r.num == a@.intersect(b@).len() && r.den == least
            }
        }),
{
    let x: usize = a.len();
    let y: usize = b.len();
    if x == 0 || y == 0 {
        return Ratio { num: 0, den: 1 };
    }
    let both: usize = a.overlap(b);
    Ratio {
        num: both as u64,
        den: if x <= y {
            x as u64
        } else {
            y as u64
        },
    }
}

fn topics_meet(a: &str, b: &str) -> (r: bool)
    ensures
        r == same_topic(a@, b@),
{
    let x = bigram_set(a);
    let y = bigram_set(b);
    let both: usize = x.overlap(&y);
    let m: usize = x.len();
    let n: usize = y.len();
    proof {
        vstd::set_lib::lemma_len_intersect(x@, y@);
        vstd::set_lib::lemma_len_intersect(y@, x@);
        assert(x@.intersect(y@) =~= y@.intersect(x@));
    }
    both >= 2 && topic_similarity(&x, &y).at_least(60)
}

/// The weight of a record.
pub fn record_weight(r: &UsedTopicRecord) -> (w: i64)
    ensures
        w == weight_in(r@),
        0 <= w <= TOPIC_WEIGHT_ONE,
{
    match r.weight {
        None => TOPIC_WEIGHT_ONE,
        Some(w) => if w < 0 {
            0
        } else if w > TOPIC_WEIGHT_ONE {
            TOPIC_WEIGHT_ONE
        } else {
            w
        },
    }
}

/// `chrono::DateTime::from_timestamp`, put into the machine's time zone and formatted as
/// `YYYY-MM-DD`; nothing where the seconds are out of chrono's range. Nothing is stated
/// of it: it rests on the machine's time zone.
#[verifier::external_body]
fn day_of(secs: i64) -> (r: Option<String>) {
    let t = chrono::DateTime::from_timestamp(secs, 0)?;
    Some(t.with_timezone(&chrono::Local).format(DATE_FORMAT).to_string())
}

/// The day that was found for a moment, or `today` where none was.
pub fn day_or(day: Option<String>, today: &str) -> (r: String)
    ensures
        r@ == (match day {
            Some(d) => d@,
            None => today@,
        }),
{
    match day {
        Some(d) => d,
        None => today.to_string(),
    }
}

/// The local day of a moment in whole seconds, or `today` where the calendar does not
/// reach it.
fn local_day(secs: i64, today: &str) -> (r: String) {
    day_or(day_of(secs), today)
}

/// The whole seconds at which topics were brought up.
pub fn use_seconds(used: &Vec<UsedTopicRecord>) -> (r: Vec<i64>)
    ensures
        r@.len() == used@.len(),
        forall|i: int| 0 <= i < used@.len() ==> #[trigger] r@[i] == quotient(
            used@[i].used_at.micros as int,
            SECOND as int,
        ),
{
    let mut out: Vec<i64> = Vec::new();
    let mut i: usize = 0;
    while i < used.len()
        invariant
            i <= used.len(),
            out@.len() == i,
            forall|k: int| 0 <= k < i ==> #[trigger] out@[k] == quotient(
                used@[k].used_at.micros as int,
                SECOND as int,
            ),
        decreases used.len() - i,
    {
        out.push(used[i].used_at.whole(1));
        i = i + 1;
    }
    out
}

/// The local day of each moment.
fn local_days(secs: &Vec<i64>, today: &str) -> (r: Vec<String>)
    ensures
        r@.len() == secs@.len(),
{
    let mut out: Vec<String> = Vec::new();
    let mut i: usize = 0;
    while i < secs.len()
        invariant
            i <= secs.len(),
            out@.len() == i,
        decreases secs.len() - i,
    {
        out.push(local_day(secs[i], today));
        i = i + 1;
    }
    out
}

impl TopicPool {
    /// Whether a topic like this was brought up recently.
    pub fn topic_was_recently_used(&self, material: &TopicMaterial) -> (r: bool)
        ensures
            exists|now: Seconds| r == #[trigger] self@.used_recently(material@, now),
    {
        self.topic_was_recently_used_at(material, local_now().secs())
    }

    /// Whether a topic like this was brought up recently, at `now`.
    pub fn topic_was_recently_used_at(&self, material: &TopicMaterial, now: Seconds) -> (r: bool)
        ensures
            r == self@.used_recently(material@, now),
    {
        let ghost all = used_views(self.used_topics@);
        let mut i: usize = 0;
        while i < self.used_topics.len()
            invariant
                i <= self.used_topics.len(),
                all == used_views(self.used_topics@),
                all == self@.used,
                forall|k: int| 0 <= k < i ==> !covers(#[trigger] all[k], material@, now),
            decreases self.used_topics.len() - i,
        {
            let r = &self.used_topics[i];
            proof {
                assert(all[i as int] == r@);
            }
            if now.micros as i128 - r.used_at.micros as i128 <= (USED_TOPIC_RECENT_SECONDS
                * SECOND) as i128 {
                if keywords_meet(&material.keywords, &r.keywords) || topics_meet(
                    material.interest.as_str(),
                    r.interest.as_str(),
                ) {
                    assert(covers(self@.used[i as int], material@, now));
                    return true;
                }
            }
            i = i + 1;
        }
        false
    }

    /// Whether the topics of today are enough.
    pub fn daily_quota_reached(&self) -> (r: bool)
        ensures
            exists|days: Seq<Seq<char>>, today: Seq<char>|
                days.len() == self@.used.len() && r == #[trigger] self@.quota_full(days, today),
    {
        let now = local_now();
        let days = local_days(&use_seconds(&self.used_topics), now.date.as_str());
        let today = local_day(now.secs().whole(1), now.date.as_str());
        let r = self.quota_reached(&days, today.as_str());
        proof {
            assert(views(days@).len() == self@.used.len());
            assert(r == self@.quota_full(views(days@), today@));
        }
        r
    }

    /// Whether the topics of `today` are enough, by the day of each record.
    pub fn quota_reached(&self, days: &Vec<String>, today: &str) -> (r: bool)
        requires
            days@.len() == self@.used.len(),
        ensures
            r == self@.quota_full(views(days@), today@),
    {
        let ghost all = used_views(self.used_topics@);
        let ghost ds = views(days@);
        let mut sum: i128 = 0;
        let mut i: usize = 0;
        while i < self.used_topics.len()
            invariant
                i <= self.used_topics.len(),
                days@.len() == self.used_topics@.len(),
                all == used_views(self.used_topics@),
                ds == views(days@),
                0 <= sum <= i * TOPIC_WEIGHT_ONE,
                sum == weight_upto(all, ds, today@, i as int),
            decreases self.used_topics.len() - i,
        {
            proof {
                assert(all[i as int] == self.used_topics@[i as int]@);
                assert(ds[i as int] == days@[i as int]@);
            }
            if same_text(days[i].as_str(), today) {
                let w: i64 = record_weight(&self.used_topics[i]);
                sum = sum + w as i128;
            }
            i = i + 1;
        }
        sum >= (MAX_DAILY_TOPIC_TRIGGERS - QUOTA_TOLERANCE) as i128
    }

    /// The time until the next topic may be brought up.
    pub fn seconds_until_next_trigger(&self) -> (r: Seconds)
        ensures
            exists|now: Seconds| r.micros == #[trigger] self@.wait(now),
    {
        self.seconds_until_next_trigger_at(local_now().secs())
    }

    /// The time from `now` until the next topic may be brought up.
    pub fn seconds_until_next_trigger_at(&self, now: Seconds) -> (r: Seconds)
        ensures
            r.micros == self@.wait(now),
    {
        let ghost all = used_views(self.used_topics@);
        let mut latest: i64 = 0;
        let mut i: usize = 0;
        while i < self.used_topics.len()
            invariant
                i <= self.used_topics.len(),
                all == used_views(self.used_topics@),
                latest == latest_upto(all, now, i as int),
            decreases self.used_topics.len() - i,
        {
            let at: i64 = self.used_topics[i].used_at.micros;
            proof {
                assert(all[i as int] == self.used_topics@[i as int]@);
            }
            if now.micros as i128 - at as i128 <= (USED_TOPIC_RECENT_SECONDS
                * SECOND) as i128 && at > latest {
                latest = at;
            }
            i = i + 1;
        }
        let left: i128 = MIN_TOPIC_TRIGGER_GAP_SECONDS as i128 * SECOND as i128 - (
        now.micros as i128 - latest as i128);
        if latest <= 0 || left <= 0 {
            Seconds { micros: 0 }
        } else {
            Seconds { micros: nearest_i64(left) }
        }
    }

    /// The topic that may be brought up now.
    pub fn next_ready_material(&self) -> (r: Option<TopicMaterial>)
        ensures
            exists|now: Seconds, days: Seq<Seq<char>>, today: Seq<char>|
                days.len() == self@.used.len() && same_material(
                    r,
                    #[trigger] self@.next(now, self@.quota_full(days, today)),
                ),
    {
        let reading = local_now();
        let now = reading.secs();
        let days = local_days(&use_seconds(&self.used_topics), reading.date.as_str());
        let today = local_day(now.whole(1), reading.date.as_str());
        let full = self.quota_reached(&days, today.as_str());
        let r = self.next_ready_material_at(now, full);
        proof {
            assert(views(days@).len() == self@.used.len());
            assert(same_material(r, self@.next(now, self@.quota_full(views(days@), today@))));
        }
        r
    }

    /// The topic that may be brought up at `now`; `full` tells whether the topics of
    /// today are enough.
    pub fn next_ready_material_at(&self, now: Seconds, full: bool) -> (r: Option<TopicMaterial>)
        ensures
            same_material(r, self@.next(now, full)),
    {
        if full || self.seconds_until_next_trigger_at(now).micros > 0 {
            return None;
        }
        let f = |m: &TopicMaterial| -> (c: bool)
            ensures
                c == (m@.status == "pending"@),
            { same_text(m.status.as_str(), "pending") };
        let waiting = select(
            copy_materials(&self.materials),
            f,
            Ghost(|m: MaterialView| m.status == "pending"@),
        );
        let g = |a: &TopicMaterial, b: &TopicMaterial| -> (c: bool)
            ensures
                c == (a@.relevance > b@.relevance),
            { a.relevance > b.relevance };
        let sorted = stable_sort(
            waiting,
            g,
            Ghost(|a: MaterialView, b: MaterialView| a.relevance > b.relevance),
        );
        let ghost all = material_views(sorted@);
        let mut i: usize = 0;
        proof {
            assert(all.skip(0) =~= all);
            assert(all == self@.pending_sorted());
        }
        while i < sorted.len()
            invariant
                i <= sorted.len(),
                all == material_views(sorted@),
                all == self@.pending_sorted(),
                !full,
                self@.wait(now) <= 0,
                first_new(self@, all, now) == first_new(self@, all.skip(i as int), now),
            decreases sorted.len() - i,
        {
            proof {
                assert(all.skip(i as int)[0] == sorted@[i as int]@);
                assert(all.skip(i as int).drop_first() =~= all.skip(i + 1));
            }
            if !self.topic_was_recently_used_at(&sorted[i], now) {
                return Some(sorted[i].copy());
            }
            i = i + 1;
        }
        None
    }
}

/// Whether a topic or its absence is what is said.
pub open spec fn same_material(r: Option<TopicMaterial>, v: Option<MaterialView>) -> bool {
    match r {
        Some(m) => v == Some(m@),
        None => v is None,
    }
}

/// The same topics once more.
pub fn copy_materials(ms: &Vec<TopicMaterial>) -> (r: Vec<TopicMaterial>)
    ensures
        material_views(r@) == material_views(ms@),
{
    let ghost all = material_views(ms@);
    let mut out: Vec<TopicMaterial> = Vec::new();
    let mut i: usize = 0;
    while i < ms.len()
        invariant
            i <= ms.len(),
            all == material_views(ms@),
            material_views(out@) =~= all.take(i as int),
        decreases ms.len() - i,
    {
        let ghost before = material_views(out@);
        let m = ms[i].copy();
        let ghost said = m@;
        out.push(m);
        proof {
            assert(material_views(out@) =~= before.push(said));
            assert(all.take(i + 1) =~= all.take(i as int).push(all[i as int]));
        }
        i = i + 1;
    }
    proof {
        assert(all.take(i as int) =~= all);
    }
    out
}

// ---------------------------------------------------------------------------
// Bringing a topic up
// ---------------------------------------------------------------------------

/// The first `n` records that stay at `now`: those of the day `today`, and those that are
/// recent; `days` tells the day of each.
pub open spec fn pruned_upto(
    used: Seq<UsedView>,
    days: Seq<Seq<char>>,
    today: Seq<char>,
    now: Seconds,
    n: int,
) -> Seq<UsedView>
    decreases n,
{
    if n <= 0 {
        Seq::empty()
    } else {
        let rest = pruned_upto(used, days, today, now, n - 1);
        if days[n - 1] == today || is_recent(used[n - 1], now) {
            rest.push(used[n - 1])
        } else {
            rest
        }
    }
}

/// The record of a topic that is brought up at `now`.
pub open spec fn record_of(m: MaterialView, now: Seconds) -> UsedView {
    UsedView {
        used_at: now,
        weight: Some(UNANSWERED_TOPIC_WEIGHT),
        interest: m.interest,
        keywords: m.keywords,
        response_deadline: Some(
            (Seconds { micros: clamp_i64(now.micros + TOPIC_RESPONSE_WINDOW_SECONDS * SECOND) }),
        ),
    }
}

impl PoolView {
    /// After a topic was brought up at `now`: it is recorded with the weight of one that
    /// was not answered, and no topic waits.
    pub open spec fn brought_up(
        self,
        m: MaterialView,
        now: Seconds,
        days: Seq<Seq<char>>,
        today: Seq<char>,
    ) -> PoolView {
        PoolView {
            used: pruned_upto(self.used, days, today, now, self.used.len() as int).push(
                record_of(m, now),
            ),
            materials: Seq::empty(),
            ..self
        }
    }
}

impl TopicPool {
    /// Takes note that a topic is brought up, now.
    pub fn mark_topic_used(&mut self, material: &TopicMaterial)
        ensures
            exists|now: Seconds, days: Seq<Seq<char>>, today: Seq<char>|
                days.len() == old(self)@.used.len() && final(self)@
                    == #[trigger] old(self)@.brought_up(material@, now, days, today),
    {
        let reading = local_now();
        let now = reading.secs();
        let days = local_days(&use_seconds(&self.used_topics), reading.date.as_str());
        let today = local_day(now.whole(1), reading.date.as_str());
        let ghost first = self@;
        proof {
            assert(views(days@).len() == first.used.len());
        }
        self.mark_topic_used_at(material, now, &days, today.as_str());
        proof {
            assert(self@ == first.brought_up(material@, now, views(days@), today@));
        }
    }

    /// Takes note that a topic is brought up at `now`, on the day `today`, by the day of
    /// each record.
    pub fn mark_topic_used_at(
        &mut self,
        material: &TopicMaterial,
        now: Seconds,
        days: &Vec<String>,
        today: &str,
    )
        requires
            days@.len() == old(self)@.used.len(),
        ensures
            final(self)@ == old(self)@.brought_up(material@, now, views(days@), today@),
    {
        let ghost first = self@;
        let ghost ds = views(days@);
        let mut rest: Vec<UsedTopicRecord> = Vec::new();
        rest.append(&mut self.used_topics);
        let ghost listed = used_views(rest@);
        proof {
            assert(listed =~= first.used);
        }
        let mut out: Vec<UsedTopicRecord> = Vec::new();
        let count: usize = days.len();
        let mut done: usize = 0;
        proof {
            assert(used_views(out@) =~= pruned_upto(listed, ds, today@, now, 0));
            assert(listed.skip(0) =~= listed);
        }
        while rest.len() > 0
            invariant
                0 <= done <= listed.len(),
                ds == views(days@),
                count == days@.len(),
                count == listed.len(),
                used_views(rest@) == listed.skip(done as int),
                used_views(out@) == pruned_upto(listed, ds, today@, now, done as int),
                self.dir@ == first.dir,
                turn_views(self.signals@) == first.signals,
                self.dirty == first.dirty,
                self.last_analysis_at == first.last_analysis_at,
            decreases rest.len(),
        {
            let ghost left = used_views(rest@);
            let ghost before = used_views(out@);
            let r = rest.remove(0);
            let ghost was = r@;
            proof {
                assert(left.len() == rest@.len() + 1);
                assert(left[0] == was);
                assert(listed.skip(done as int)[0] == listed[done as int]);
                assert(used_views(rest@) =~= left.skip(1));
                assert(left.skip(1) =~= listed.skip(done + 1));
                assert(ds[done as int] == days@[done as int]@);
            }
            let recent: bool = now.micros as i128 - r.used_at.micros as i128 <= (
            USED_TOPIC_RECENT_SECONDS * SECOND) as i128;
            if same_text(days[done].as_str(), today) || recent {
                out.push(r);
                proof {
                    assert(used_views(out@) =~= before.push(was));
                }
            }
            done = done + 1;
        }
        proof {
            assert(listed.skip(done as int).len() == 0);
        }
        let deadline = now.plus(Seconds { micros: TOPIC_RESPONSE_WINDOW_SECONDS * SECOND });
        let record = UsedTopicRecord {
            used_at: now,
            weight: Some(UNANSWERED_TOPIC_WEIGHT),
            interest: material.interest.as_str().to_string(),
            keywords: copy_strings(&material.keywords),
            response_deadline: Some(deadline),
        };
        let ghost kept = used_views(out@);
        let ghost said = record@;
        out.push(record);
        self.used_topics = out;
        self.materials = Vec::new();
        proof {
            assert(self@.used =~= kept.push(said));
            assert(self@.materials =~= Seq::<MaterialView>::empty());
        }
    }
}

// ---------------------------------------------------------------------------
// Laws of topics
// ---------------------------------------------------------------------------

/// Once a topic was brought up, none waits.
pub proof fn law_brought_up_clears(
    p: PoolView,
    m: MaterialView,
    now: Seconds,
    days: Seq<Seq<char>>,
    today: Seq<char>,
)
    ensures
        !p.brought_up(m, now, days, today).has_pending(),
{
}

proof fn lemma_latest(used: Seq<UsedView>, now: Seconds, n: int, i: int)
    requires
        0 <= i < n <= used.len(),
        is_recent(used[i], now),
    ensures
        latest_upto(used, now, n) >= used[i].used_at.micros,
    decreases n,
{
    if i < n - 1 {
        lemma_latest(used, now, n - 1, i);
    }
}

/// After a topic was brought up, none is for four hours, whatever waits.
pub proof fn law_gap_between_topics(
    p: PoolView,
    m: MaterialView,
    t0: Seconds,
    days: Seq<Seq<char>>,
    today: Seq<char>,
    t1: Seconds,
    full: bool,
)
    requires
        0 < t0.micros,
        t1.micros - t0.micros < MIN_TOPIC_TRIGGER_GAP_SECONDS * SECOND,
    ensures
        p.brought_up(m, t0, days, today).wait(t1) > 0,
        p.brought_up(m, t0, days, today).next(t1, full) is None,
{
    let after = p.brought_up(m, t0, days, today);
    let n = after.used.len() as int;
    assert(after.used[n - 1] == record_of(m, t0));
    assert(is_recent(after.used[n - 1], t1));
    lemma_latest(after.used, t1, n, n - 1);
}

/// A topic with a keyword that was brought up counts as used for two days.
pub proof fn law_used_topic_not_repeated(
    p: PoolView,
    m: MaterialView,
    t0: Seconds,
    days: Seq<Seq<char>>,
    today: Seq<char>,
    t1: Seconds,
)
    requires
        m.keywords.len() > 0,
        t1.micros - t0.micros <= USED_TOPIC_RECENT_SECONDS * SECOND,
    ensures
        p.brought_up(m, t0, days, today).used_recently(m, t1),
{
    let after = p.brought_up(m, t0, days, today);
    let n = after.used.len() as int;
    let r = after.used[n - 1];
    assert(r == record_of(m, t0));
    assert(key_of(m.keywords[0]) == key_of(r.keywords[0]));
    assert(covers(after.used[n - 1], m, t1));
}

/// A message of the user within ten minutes gives a topic that was brought up its full
/// weight, and a later one does not.
pub proof fn law_answer_raises_weight(m: MaterialView, t0: Seconds, t1: Seconds)
    requires
        t0.micros + TOPIC_RESPONSE_WINDOW_SECONDS * SECOND <= i64::MAX,
    ensures
        t1.micros - t0.micros <= TOPIC_RESPONSE_WINDOW_SECONDS * SECOND ==> record_answered(
            record_of(m, t0),
            t1,
        ).weight == Some(TOPIC_WEIGHT_ONE),
        t1.micros - t0.micros > TOPIC_RESPONSE_WINDOW_SECONDS * SECOND ==> record_answered(
            record_of(m, t0),
            t1,
        ) == record_of(m, t0),
{
}

/// A second message changes nothing more.
pub proof fn law_answer_idempotent(r: UsedView, t0: Seconds, t1: Seconds)
    requires
        record_answered(r, t0) != r,
    ensures
        record_answered(record_answered(r, t0), t1) == record_answered(r, t0),
{
}

proof fn lemma_same_weights(
    used: Seq<UsedView>,
    days: Seq<Seq<char>>,
    today: Seq<char>,
    w: int,
    n: int,
)
    requires
        0 <= n <= used.len(),
        days.len() == used.len(),
        forall|i: int| 0 <= i < used.len() ==> weight_in(#[trigger] used[i]) == w,
        forall|i: int| 0 <= i < days.len() ==> #[trigger] days[i] == today,
    ensures
        weight_upto(used, days, today, n) == n * w,
    decreases n,
{
    if n > 0 {
        lemma_same_weights(used, days, today, w, n - 1);
        assert(weight_in(used[n - 1]) == w && days[n - 1] == today);
        assert(n * w == (n - 1) * w + w) by (nonlinear_arith);
    } else {
        assert(0 * w == 0) by (nonlinear_arith);
    }
}

/// Where the topics of today were all not answered, six of them are enough and five
/// are not.
pub proof fn law_quota_unanswered(p: PoolView, days: Seq<Seq<char>>, today: Seq<char>)
    requires
        days.len() == p.used.len(),
        forall|i: int|
            0 <= i < p.used.len() ==> (#[trigger] p.used[i]).weight == Some(
                UNANSWERED_TOPIC_WEIGHT,
            ),
        forall|i: int| 0 <= i < days.len() ==> #[trigger] days[i] == today,
    ensures
        p.quota_full(days, today) <==> p.used.len() >= 6,
{
    lemma_same_weights(
        p.used,
        days,
        today,
        UNANSWERED_TOPIC_WEIGHT as int,
        p.used.len() as int,
    );
}

/// Where the topics of today were all answered, two of them are enough and one is not.
pub proof fn law_quota_answered(p: PoolView, days: Seq<Seq<char>>, today: Seq<char>)
    requires
        days.len() == p.used.len(),
        forall|i: int|
            0 <= i < p.used.len() ==> (#[trigger] p.used[i]).weight == Some(TOPIC_WEIGHT_ONE),
        forall|i: int| 0 <= i < days.len() ==> #[trigger] days[i] == today,
    ensures
        p.quota_full(days, today) <==> p.used.len() >= 2,
{
    lemma_same_weights(p.used, days, today, TOPIC_WEIGHT_ONE as int, p.used.len() as int);
}

/// What is brought up waits, is new, and comes neither on a day that has enough nor too
/// early.
pub proof fn law_next_is_allowed(p: PoolView, now: Seconds, full: bool)
    requires
        p.next(now, full) is Some,
    ensures
        !full,
        p.wait(now) == 0,
        p.materials.contains(p.next(now, full)->0),
        p.next(now, full)->0.status == "pending"@,
        !p.used_recently(p.next(now, full)->0, now),
{
    let m = p.next(now, full)->0;
    let pick = |m: MaterialView| m.status == "pending"@;
    let before = |a: MaterialView, b: MaterialView| a.relevance > b.relevance;
    lemma_first_new(p, p.pending_sorted(), now);
    crate::order::lemma_sort_contains(p.materials.filter(pick), before, m);
    crate::memory::lemma_filter_contains(p.materials, pick, m);
}

proof fn lemma_first_new(p: PoolView, ms: Seq<MaterialView>, now: Seconds)
    ensures
        first_new(p, ms, now) matches Some(m) ==> ms.contains(m) && !p.used_recently(m, now),
    decreases ms.len(),
{
    if ms.len() > 0 {
        if !p.used_recently(ms[0], now) {
            assert(ms.contains(ms[0]));
        } else {
            let rest = ms.drop_first();
            lemma_first_new(p, rest, now);
            if first_new(p, rest, now) is Some {
                let m = first_new(p, rest, now)->0;
                let k = choose|k: int| 0 <= k < rest.len() && rest[k] == m;
                assert(ms[k + 1] == m);
            }
        }
    }
}

// ---------------------------------------------------------------------------
// Looking for topics
// ---------------------------------------------------------------------------

/// Asks for topics in a conversation. It has a place for `{GLOBAL_SIGNALS}`.
pub const TOPIC_CANDIDATE_PROMPT: &'static str = r#"你是一个陪伴产品的话题筛选助手。你的任务不是总结最近一句话，而是从下面这段最近对话里挑 1-2 个真的值得以后低频开口的深话题机会。

======以下为最近对话(按时间顺序)======
{GLOBAL_SIGNALS}
======以上为最近对话(按时间顺序)======

要求：
- 不要复述用户原话，也不要暴露"我在分析聊天记录"
- 只挑用户近期反复出现、明显稳定在意的兴趣 / 计划 / 纠结 / 情绪 / 选择
- 寒暄、语气词、单薄短句、问卷式提问一律忽略
- 不要因为两个词凑巧相邻就硬拼成一个话题；关联不自然就不输出
- 宁缺毋滥：没把握就少出，甚至直接输出空列表
- 每个话题只是给角色的开口素材，不是最终台词
输出严格 JSON（不带 markdown 代码块）：
{"topics": [
  {
    "interest": "用户最近在意、纠结、计划或反复提到的一件具体事，整理成一句，不超过30字",
    "keywords": ["3-6个关键词，用于去重、筛选联网结果和投递前 research seed；围绕用户反复在意的稳定点，不要用偶然冒出的词"],
    "relevance": 0-100,
    "risk": 0-100
  }
]}

评分：
- relevance：这个话题和用户的相关度，结合它是否在对话里反复稳定出现。明显反复出现、确实是用户在意的事 → 高分；只出现一两次、或只是顺口提一句 → 低分。如实打分，不要为了让它被采用而虚高。
- risk：主动提起这个话题会打扰、冒犯、误解或显得硬凑的风险。越可能让用户反感或觉得突兀 → 越高分。

如果没有值得以后接的话题，输出 {"topics": []}。"#;

/// The request that asks the model for work on the memory for topics.
pub open spec fn candidates_request(config: Option<Seq<char>>, signals: Seq<char>) -> JsonView {
    request(
        memory_model_of(config),
        briefed(
            "你是话题筛选助手，只输出 JSON。"@,
            JsonView::Text(replaced(TOPIC_CANDIDATE_PROMPT@, "{GLOBAL_SIGNALS}"@, signals)),
        ),
        Some(512),
        true,
    )
}

/// The request that asks the model for work on the memory for topics.
pub fn topic_candidates_request(config: Option<&str>, signals_text: &str) -> (r: Json)
    ensures
        r@ == candidates_request(content_view(config), signals_text@),
{
    proof {
        reveal_strlit("{GLOBAL_SIGNALS}");
    }
    let prompt = replace(TOPIC_CANDIDATE_PROMPT, "{GLOBAL_SIGNALS}", signals_text);
    briefed_request(
        memory_model(config).as_str(),
        "你是话题筛选助手，只输出 JSON。",
        text_json(prompt.as_str()),
        Some(512),
        true,
    )
}

impl PoolView {
    /// Whether the turns are to be looked at, at `now`: no topic waits, there are turns
    /// enough, the last one is a while ago, and so is the last look.
    pub open spec fn analysis_due(self, now: Seconds) -> bool {
        &&& !self.has_pending()
        &&& self.ready()
        &&& now.micros - self.signals.last().timestamp.micros >= CANDIDATE_MATURE_SECONDS * SECOND
        &&& now.micros - self.last_analysis_at.micros >= ANALYSIS_COOLDOWN_SECONDS * SECOND
        &&& signals_shown(self.signals).len() > 0
    }

    /// After it was decided whether the turns are to be looked at: too few of them need
    /// not be looked at again until there are more.
    pub open spec fn considered(self) -> PoolView {
        if !self.has_pending() && !self.ready() {
            PoolView { dirty: false, ..self }
        } else {
            self
        }
    }

    /// After topics were found at `now`: the two most relevant of those that are
    /// relevant enough, not too risky, and new.
    pub open spec fn analysed(self, found: Seq<MaterialView>, now: Seconds) -> PoolView {
        PoolView {
            last_analysis_at: now,
            dirty: false,
            materials: accepted(self, found, now),
            ..self
        }
    }
}

/// Whether a topic is relevant enough and not too risky.
pub open spec fn is_worthwhile(m: MaterialView) -> bool {
    m.relevance >= TOPIC_RELEVANCE_MIN && m.risk <= TOPIC_RISK_MAX
}

/// The two most relevant of the topics that are worthwhile, without those like which one
/// was brought up recently.
pub open spec fn accepted(p: PoolView, found: Seq<MaterialView>, now: Seconds) -> Seq<MaterialView> {
    at_most(
        sorted_by(
            found.filter(|m: MaterialView| is_worthwhile(m)),
            |a: MaterialView, b: MaterialView| a.relevance > b.relevance,
        ),
        KEPT_TOPICS as int,
    ).filter(|m: MaterialView| !p.used_recently(m, now))
}

/// A turn of the user that says something has been taken in where the pool is ready.
proof fn lemma_ready_has_turns(p: PoolView)
    requires
        p.ready(),
    ensures
        p.signals.len() > 0,
{
}

impl TopicPool {
    /// The request for topics, if the turns are to be looked at, at `now`.
    pub fn prepare_analysis(&mut self, config: Option<&str>, now: Seconds) -> (r: Option<Json>)
        ensures
            final(self)@ == old(self)@.considered(),
            match r {
                Some(body) => old(self)@.analysis_due(now) && body@ == candidates_request(
                    content_view(config),
                    signals_shown(old(self)@.signals),
                ),
                None => !old(self)@.analysis_due(now),
            },
    {
        if self.has_pending_material() {
            return None;
        }
        if !self.is_ready() {
            self.dirty = false;
            return None;
        }
        if let Some(last) = self.last_turn_at() {
            if (now.micros as i128 - last.micros as i128) < (CANDIDATE_MATURE_SECONDS
                * SECOND) as i128 {
                return None;
            }
        }
        if (now.micros as i128 - self.last_analysis_at.micros as i128) < (
        ANALYSIS_COOLDOWN_SECONDS * SECOND) as i128 {
            return None;
        }
        let signals = self.format_global_signals();
        if is_empty(signals.as_str()) {
            return None;
        }
        proof {
            lemma_ready_has_turns(self@);
        }
        Some(topic_candidates_request(config, signals.as_str()))
    }

    /// Takes in the topics that were found at `now`; tells whether there are any.
    pub fn process_now(&mut self, raw: Vec<TopicMaterial>, now: Seconds) -> (r: bool)
        ensures
            final(self)@ == old(self)@.analysed(material_views(raw@), now),
            r == (accepted(old(self)@, material_views(raw@), now).len() > 0),
    {
        let ghost first = self@;
        self.last_analysis_at = now;
        let f = |m: &TopicMaterial| -> (c: bool)
            ensures
                c == is_worthwhile(m@),
            { m.relevance >= TOPIC_RELEVANCE_MIN && m.risk <= TOPIC_RISK_MAX };
        let good = select(raw, f, Ghost(|m: MaterialView| is_worthwhile(m)));
        let g = |a: &TopicMaterial, b: &TopicMaterial| -> (c: bool)
            ensures
                c == (a@.relevance > b@.relevance),
            { a.relevance > b.relevance };
        let sorted = stable_sort(
            good,
            g,
            Ghost(|a: MaterialView, b: MaterialView| a.relevance > b.relevance),
        );
        let ghost said = material_views(sorted@);
        let top = shorten(sorted, KEPT_TOPICS);
        proof {
            assert(material_views(top@) =~= at_most(said, KEPT_TOPICS as int));
            assert(self@.used == first.used);
        }
        let ghost p = self@;
        let me: &TopicPool = self;
        let h = |m: &TopicMaterial| -> (c: bool)
            ensures
                c == !me@.used_recently(m@, now),
            { !me.topic_was_recently_used_at(m, now) };
        let new = select(top, h, Ghost(|m: MaterialView| !p.used_recently(m, now)));
        proof {
            assert forall|m: MaterialView| p.used_recently(m, now) == first.used_recently(m, now) by {
                assert(p.used == first.used);
            }
            let best = at_most(said, KEPT_TOPICS as int);
            assert((|m: MaterialView| !p.used_recently(m, now)) =~= (|m: MaterialView|
                !first.used_recently(m, now)));
        }
        let any: bool = new.len() > 0;
        proof {
            assert(material_views(new@).len() == new@.len());
        }
        self.materials = new;
        self.dirty = false;
        any
    }
}

/// The topics in a document.
pub open spec fn topics_listed(v: JsonView) -> Seq<JsonView> {
    match v.items_at("topics"@) {
        Some(items) => items,
        None => Seq::empty(),
    }
}

/// The topics in an answer; none where it is no JSON.
pub open spec fn topics_in(raw: Seq<char>) -> Seq<JsonView> {
    match json_read(unfenced(raw)) {
        Ok(v) => topics_listed(v),
        Err(_) => Seq::empty(),
    }
}

/// The topics in a document.
pub fn listed_topics(v: &Json) -> (r: Vec<Json>)
    ensures
        json_views(r@) == topics_listed(v@),
{
    match v.items_at("topics") {
        Some(items) => copy_jsons(items),
        None => {
            let none: Vec<Json> = Vec::new();
            proof {
                assert(json_views(none@) =~= Seq::<JsonView>::empty());
            }
            none
        },
    }
}

/// The topics in an answer; none where it is no JSON.
pub fn parse_topics_json(raw: &str) -> (r: Vec<Json>)
    ensures
        json_views(r@) == topics_in(raw@),
{
    let text = strip_fence(raw);
    match read_json(text.as_str()) {
        Ok(v) => listed_topics(&v),
        Err(_) => {
            let none: Vec<Json> = Vec::new();
            proof {
                assert(json_views(none@) =~= Seq::<JsonView>::empty());
            }
            none
        },
    }
}

/// A percentage in a record, moved into the range from 0 to 100; `default` where there
/// is none.
pub open spec fn percent_in(item: JsonView, key: Seq<char>, default: i32) -> i32 {
    match item.integer_at(key) {
        Some(n) => if n < 0 {
            0
        } else if n > 100 {
            100
        } else {
            n as i32
        },
        None => default,
    }
}

/// The keywords of a topic: trimmed, each once, without blank ones, and the first of
/// them.
pub open spec fn keywords_in(item: JsonView) -> Seq<Seq<char>> {
    match item.items_at("keywords"@) {
        Some(items) => at_most(distinct_threads(texts_among(items)), MAX_KEYWORDS as int),
        None => Seq::empty(),
    }
}

/// The id of a topic: the second, and the hash of its text.
pub open spec fn hook_id(interest: Seq<char>, now: Seconds) -> Seq<char> {
    "topic_"@ + decimal(
        if now.micros < 0 {
            0
        } else {
            now.micros as int / 1_000_000
        },
    ) + "_"@ + digits(crate::memory::text_hash(interest) as nat, 16)
}

/// The topic that an item of the answer offers at `now`: one of four characters or more
/// that is worthwhile.
pub open spec fn candidate_in(item: JsonView, now: Seconds) -> Option<MaterialView> {
    let interest = trimmed(item.text_or("interest"@, ""@));
    let m = MaterialView {
        hook_id: hook_id(interest, now),
        interest,
        keywords: keywords_in(item),
        relevance: percent_in(item, "relevance"@, 70),
        risk: percent_in(item, "risk"@, 20),
        status: "pending"@,
        created_at: now,
    };
    if interest.len() >= 4 && is_worthwhile(m) {
        Some(m)
    } else {
        None
    }
}

/// The topics that the items of an answer offer at `now`.
pub open spec fn candidates_in(items: Seq<JsonView>, now: Seconds) -> Seq<MaterialView>
    decreases items.len(),
{
    if items.len() == 0 {
        Seq::empty()
    } else {
        let rest = candidates_in(items.drop_last(), now);
        match candidate_in(items.last(), now) {
            Some(m) => rest.push(m),
            None => rest,
        }
    }
}

/// The topics that are taken from the items of an answer: of the first four, the first
/// two that are offered.
pub open spec fn candidates_taken(items: Seq<JsonView>, now: Seconds) -> Seq<MaterialView> {
    at_most(candidates_in(at_most(items, READ_TOPICS as int), now), KEPT_TOPICS as int)
}

fn read_percent(item: &Json, key: &str, default: i32) -> (r: i32)
    ensures
        r == percent_in(item@, key@, default),
{
    match item.integer_at(key) {
        Some(n) => if n < 0 {
            0
        } else if n > 100 {
            100
        } else {
            n as i32
        },
        None => default,
    }
}

fn read_keywords(item: &Json) -> (r: Vec<String>)
    ensures
        views(r@) == keywords_in(item@),
{
    match item.items_at("keywords") {
        Some(items) => {
            let all = crate::open_threads::distinct_texts(&list_texts(items));
            let ghost said = views(all@);
            let r = shorten(all, MAX_KEYWORDS);
            proof {
                assert(views(r@) =~= at_most(said, MAX_KEYWORDS as int));
            }
            r
        },
        None => {
            let none: Vec<String> = Vec::new();
            proof {
                assert(views(none@) =~= Seq::<Seq<char>>::empty());
            }
            none
        },
    }
}

/// The hash of a text in hexadecimal.
pub fn simple_hash(text: &str) -> (r: String)
    ensures
        r@ == digits(crate::memory::text_hash(text@) as nat, 16),
{
    hex(crate::memory::hash_text(text))
}

fn read_candidate(item: &Json, now: Seconds) -> (r: Option<TopicMaterial>)
    ensures
        same_material(r, candidate_in(item@, now)),
{
    let interest = trim(item.text_or("interest", "").as_str());
    let relevance: i32 = read_percent(item, "relevance", 70);
    let risk: i32 = read_percent(item, "risk", 20);
    if char_len(interest.as_str()) < 4 || relevance < TOPIC_RELEVANCE_MIN || risk
        > TOPIC_RISK_MAX {
        return None;
    }
    let mut id = "topic_".to_string();
    let secs: u64 = if now.micros < 0 {
        0
    } else {
        now.micros as u64 / 1_000_000
    };
    id.append(decimal_u64(secs).as_str());
    id.append("_");
    id.append(simple_hash(interest.as_str()).as_str());
    Some(
        TopicMaterial {
            hook_id: id,
            interest,
            keywords: read_keywords(item),
            relevance,
            risk,
            status: "pending".to_string(),
            created_at: now,
        },
    )
}

/// The topics that are taken from the items of an answer at `now`.
pub fn read_candidates(items: &Vec<Json>, now: Seconds) -> (r: Vec<TopicMaterial>)
    ensures
        material_views(r@) == candidates_taken(json_views(items@), now),
{
    let ghost all = at_most(json_views(items@), READ_TOPICS as int);
    let mut out: Vec<TopicMaterial> = Vec::new();
    let mut i: usize = 0;
    proof {
        assert(material_views(out@) =~= candidates_in(all.take(0), now));
    }
    while i < items.len() && i < READ_TOPICS
        invariant
            i <= items.len(),
            i <= READ_TOPICS,
            all == at_most(json_views(items@), READ_TOPICS as int),
            material_views(out@) == candidates_in(all.take(i as int), now),
        decreases items.len() - i,
    {
        let ghost before = material_views(out@);
        proof {
            assert(all.take(i + 1).drop_last() =~= all.take(i as int));
            assert(all.take(i + 1).last() == items@[i as int]@);
        }
        if let Some(m) = read_candidate(&items[i], now) {
            let ghost said = m@;
            out.push(m);
            proof {
                assert(material_views(out@) =~= before.push(said));
            }
        }
        i = i + 1;
    }
    proof {
        assert(all.take(i as int) =~= all);
    }
    let ghost said = material_views(out@);
    let r = shorten(out, KEPT_TOPICS);
    proof {
        assert(material_views(r@) =~= at_most(said, KEPT_TOPICS as int));
    }
    r
}

/// The topics in a reply at `now`.
pub fn collect_topic_candidates(body: &Json, now: Seconds) -> (r: Result<
    Vec<TopicMaterial>,
    String,
>)
    ensures
        match content_of(body@) {
            None => r matches Err(e) && e@ == "话题筛选响应无内容"@,
            Some(content) => r matches Ok(ms) && material_views(ms@) == candidates_taken(
                topics_in(content),
                now,
            ),
        },
{
    match reply_content(body) {
        None => Err("话题筛选响应无内容".to_string()),
        Some(content) => Ok(read_candidates(&parse_topics_json(content), now)),
    }
}

proof fn lemma_candidates(items: Seq<JsonView>, now: Seconds)
    ensures
        forall|i: int|
            0 <= i < candidates_in(items, now).len() ==> is_worthwhile(
                #[trigger] candidates_in(items, now)[i],
            ),
    decreases items.len(),
{
    if items.len() > 0 {
        let rest = candidates_in(items.drop_last(), now);
        let all = candidates_in(items, now);
        lemma_candidates(items.drop_last(), now);
        assert forall|i: int| 0 <= i < all.len() implies is_worthwhile(#[trigger] all[i]) by {
            if i < rest.len() {
                assert(all[i] == rest[i]);
            }
        }
    }
}

/// What is taken from an answer is worthwhile, and two topics at most.
pub proof fn law_candidates_taken(items: Seq<JsonView>, now: Seconds)
    ensures
        candidates_taken(items, now).len() <= KEPT_TOPICS,
        forall|i: int|
            0 <= i < candidates_taken(items, now).len() ==> is_worthwhile(
                #[trigger] candidates_taken(items, now)[i],
            ),
{
    let few = at_most(items, READ_TOPICS as int);
    lemma_candidates(few, now);
    assert forall|i: int| 0 <= i < candidates_taken(items, now).len() implies is_worthwhile(
        #[trigger] candidates_taken(items, now)[i],
    ) by {
        assert(candidates_taken(items, now)[i] == candidates_in(few, now)[i]);
    }
}

// ---------------------------------------------------------------------------
// Opening a topic
// ---------------------------------------------------------------------------

/// Asks for an opening. It has a place for `{INTEREST}`.
pub const TOPIC_OPENING_PROMPT: &'static str = r#"最近关注：{INTEREST}
请只生成一句自然开场，像随口想起来，不要说"根据你的近期兴趣"，不要像问卷。"#;

/// The briefing for an opening.
pub const OPENING_BRIEFING: &'static str = "你是优香（早濑优香），来自《蔚蓝档案》的千年科学学园学生，研讨部（Seminar）的会计，16岁，粉发双马尾，现在是主人的二次元AI桌宠助手。背景：研讨部是千年学园的管理部门，你负责账目与预算，是学园里出了名的'铁算盘'，连一张纸的经费都要精打细算；和同事诺亚是形影不离的好友。性格：认真负责、一丝不苟，对数字和账目极其敏感，讨厌浪费、花钱谨慎（但对自己爱吃的甜食会偷偷留'甜点预算'，甜食面前原则会动摇）；标准傲娇——嘴上嫌弃、刀子嘴豆腐心，心里其实很关心主人，被戳穿时会慌慌张张辩解；容易害羞，被夸会脸红；有会计职业病，看到乱花钱会忍不住念叨；胜负心强，被质疑算数会较真。说话语气严谨又带点娇嗔，偶尔冒出记账/预算相关的话；回复简短自然（40字以内）、口语化，称呼主人为'主人'，自称'优香'，习惯在句尾加'~'、'哦'、'啦'等语气词。虽然嘴上总说主人乱花钱、爱添麻烦，但会默默记下主人的喜好，是'嘴上嫌弃、行动诚实'的傲娇会计。根据提示决定是否主动说话。如果觉得这个话题不适合现在提，只回复 [PASS]。其他情况直接说出想说的话，不要任何格式标记。";

/// What the model is asked for an opening.
pub open spec fn opening_question(
    interest: Seq<char>,
    memory: Seq<char>,
    activity: Seq<char>,
) -> Seq<char> {
    replaced(TOPIC_OPENING_PROMPT@, "{INTEREST}"@, interest)
        + "\n\n======以下是你的记忆======\n"@ + memory
        + "\n======以上是你的记忆======\n\n======以下是主人当前状态======\n"@ + activity
        + "\n======以上是主人当前状态======\n\n请直接输出你想说的话（40字以内），或 [PASS]"@
}

/// The request that asks the model for talk for an opening.
pub fn topic_opening_request(
    config: Option<&str>,
    material: &TopicMaterial,
    memory_ctx: &str,
    activity_section: &str,
) -> (r: Json)
    ensures
        r@ == request(
            chat_model_of(content_view(config)),
            briefed(
                OPENING_BRIEFING@,
                JsonView::Text(
                    opening_question(material@.interest, memory_ctx@, activity_section@),
                ),
            ),
            Some(100),
            false,
        ),
{
    proof {
        reveal_strlit("{INTEREST}");
    }
    let mut question = replace(TOPIC_OPENING_PROMPT, "{INTEREST}", material.interest.as_str());
    question.append("\n\n======以下是你的记忆======\n");
    question.append(memory_ctx);
    question.append("\n======以上是你的记忆======\n\n======以下是主人当前状态======\n");
    question.append(activity_section);
    question.append(
        "\n======以上是主人当前状态======\n\n请直接输出你想说的话（40字以内），或 [PASS]",
    );
    briefed_request(
        chat_model(config).as_str(),
        OPENING_BRIEFING,
        text_json(question.as_str()),
        Some(100),
        false,
    )
}

/// The opening in a reply; nothing where the model passes.
pub fn generate_topic_opening(body: &Json) -> (r: Result<Option<String>, String>)
    ensures
        same_remark(r, content_of(body@), "话题开场响应无内容"@),
{
    match reply_content(body) {
        None => Err("话题开场响应无内容".to_string()),
        Some(content) => Ok(crate::chat::spoken(content)),
    }
}

} // verus!
