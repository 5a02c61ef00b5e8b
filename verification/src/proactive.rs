//! When the companion speaks up by itself, and how it keeps from being a nuisance.

use crate::activity::{
    activity_section, format_activity_state_section, ActivitySnapshot, ActivityState, SnapshotView,
};
use crate::chat::{
    briefed, briefed_request, content_of, picture_and_text, picture_content, remark, reply_content,
    request, same_string, spoken, text_json,
};
use crate::clock::{clamp_i64, local_now, Seconds, Wall};
use crate::config::{
    chat_model, chat_model_of, content_view, vision_model, vision_model_of,
};
use crate::json::{Json, JsonView};
use crate::memory::MemoryStore;
use crate::order::{lemma_push_contains, select};
use crate::text::{chars_of, decimal, decimal_u64, join, joined, views};
use vstd::prelude::*;

verus! {

// ---------------------------------------------------------------------------
// Similarity of texts
// ---------------------------------------------------------------------------

/// A fraction between zero and one.
#[derive(Debug, Clone, Copy)]
pub struct Ratio {
    pub num: u64,
    pub den: u64,
}

/// The pairs of neighbouring characters of a text, in their order.
pub open spec fn neighbours(s: Seq<char>) -> Seq<(char, char)> {
    if s.len() < 2 {
        Seq::empty()
    } else {
        Seq::new((s.len() - 1) as nat, |i: int| (s[i], s[i + 1]))
    }
}

/// The set of pairs of neighbouring characters of a text.
pub open spec fn bigrams(s: Seq<char>) -> Set<(char, char)> {
    neighbours(s).to_set()
}

/// The number of pairs that two texts share.
pub open spec fn shared(a: Seq<char>, b: Seq<char>) -> nat {
    bigrams(a).intersect(bigrams(b)).len()
}

/// The similarity of two texts by Dice: twice the number of pairs that they share
/// over the number of pairs of the one and of the other; zero where either has no
/// pair.
pub open spec fn dice(a: Seq<char>, b: Seq<char>) -> (int, int) {
    if a.len() < 2 || b.len() < 2 {
        (0, 1)
    } else {
        (2 * shared(a, b) as int, (bigrams(a).len() + bigrams(b).len()) as int)
    }
}

impl Ratio {
    /// Whether the ratio is `percent` hundredths or more.
    pub open spec fn reaches(self, percent: int) -> bool {
        100 * self.num >= percent * self.den
    }

    /// Whether the ratio is above `percent` hundredths.
    pub open spec fn above(self, percent: int) -> bool {
        100 * self.num > percent * self.den
    }

    /// Whether the ratio is greater than another.
    pub open spec fn greater(self, other: Ratio) -> bool {
        self.num * other.den > other.num * self.den
    }

    /// Whether the ratio is `percent` hundredths or more.
    pub fn at_least(self, percent: u32) -> (r: bool)
        ensures
            r == self.reaches(percent as int),
    {
        proof {
            assert(percent * self.den <= 0xffff_ffff * 0xffff_ffff_ffff_ffff) by (nonlinear_arith)
                requires
                    percent <= 0xffff_ffff,
                    self.den <= 0xffff_ffff_ffff_ffff,
            ;
        }
        100 * self.num as u128 >= percent as u128 * self.den as u128
    }

    /// Whether the ratio is above `percent` hundredths.
    pub fn more_than(self, percent: u32) -> (r: bool)
        ensures
            r == self.above(percent as int),
    {
        proof {
            assert(percent * self.den <= 0xffff_ffff * 0xffff_ffff_ffff_ffff) by (nonlinear_arith)
                requires
                    percent <= 0xffff_ffff,
                    self.den <= 0xffff_ffff_ffff_ffff,
            ;
        }
        100 * self.num as u128 > percent as u128 * self.den as u128
    }

    /// Whether the ratio is greater than `other`.
    pub fn exceeds(self, other: Ratio) -> (r: bool)
        ensures
            r == self.greater(other),
    {
        proof {
            assert(self.num * other.den <= 0xffff_ffff_ffff_ffff * 0xffff_ffff_ffff_ffff)
                by (nonlinear_arith)
                requires
                    self.num <= 0xffff_ffff_ffff_ffff,
                    other.den <= 0xffff_ffff_ffff_ffff,
            ;
            assert(other.num * self.den <= 0xffff_ffff_ffff_ffff * 0xffff_ffff_ffff_ffff)
                by (nonlinear_arith)
                requires
                    other.num <= 0xffff_ffff_ffff_ffff,
                    self.den <= 0xffff_ffff_ffff_ffff,
            ;
        }
        self.num as u128 * other.den as u128 > other.num as u128 * self.den as u128
    }
}

/// There are fewer pairs of characters than can be counted.
proof fn lemma_few_pairs(pairs: Set<(char, char)>)
    requires
        pairs.finite(),
    ensures
        pairs.len() <= 0x110000 * 0x110000,
{
    let code = |p: (char, char)| (p.0 as u32) * 0x110000 + (p.1 as u32);
    let codes = pairs.map(code);
    let top: int = 0x110000int * 0x110000int;
    let all = vstd::set_lib::set_int_range(0, top);
    assert forall|x: (char, char), y: (char, char)|
        pairs.contains(x) && pairs.contains(y) && #[trigger] code(x) == #[trigger] code(
            y,
        ) implies x == y by {
        vstd::utf8::char_is_scalar(x.0);
        vstd::utf8::char_is_scalar(x.1);
        vstd::utf8::char_is_scalar(y.0);
        vstd::utf8::char_is_scalar(y.1);
        assert(x.0 as u32 == y.0 as u32 && x.1 as u32 == y.1 as u32);
        vstd::utf8::char_u32_cast(x.0, x.0 as u32);
        vstd::utf8::char_u32_cast(y.0, y.0 as u32);
        vstd::utf8::char_u32_cast(x.1, x.1 as u32);
        vstd::utf8::char_u32_cast(y.1, y.1 as u32);
    }
    vstd::set_lib::lemma_map_size(pairs, codes, code);
    assert forall|n: int| codes.contains(n) implies all.contains(n) by {
        let x = choose|x: (char, char)| pairs.contains(x) && n == code(x);
        vstd::utf8::char_is_scalar(x.0);
        vstd::utf8::char_is_scalar(x.1);
    }
    vstd::set_lib::lemma_int_range(0, top);
    vstd::set_lib::lemma_len_subset(codes, all);
}

/// A set of pairs of characters.
pub struct BigramSet {
    pairs: Vec<(char, char)>,
}

impl View for BigramSet {
    type V = Set<(char, char)>;

    closed spec fn view(&self) -> Set<(char, char)> {
        self.pairs@.to_set()
    }
}

impl BigramSet {
    #[verifier::type_invariant]
    spec fn each_once(self) -> bool {
        self.pairs@.no_duplicates()
    }

    /// Whether the set holds `pair`.
    pub fn contains(&self, pair: (char, char)) -> (r: bool)
        ensures
            r == self@.contains(pair),
    {
        holds(&self.pairs, pair)
    }

    /// The number of pairs.
    pub fn len(&self) -> (r: usize)
        ensures
            r == self@.len(),
            r <= 0x110000 * 0x110000,
            self@.finite(),
    {
        proof {
            use_type_invariant(self);
            self.pairs@.unique_seq_to_set();
            vstd::seq_lib::seq_to_set_is_finite(self.pairs@);
            lemma_few_pairs(self@);
        }
        self.pairs.len()
    }

    /// The number of pairs that are in both sets.
    pub fn overlap(&self, other: &BigramSet) -> (r: usize)
        ensures
            r == self@.intersect(other@).len(),
            r <= 0x110000 * 0x110000,
    {
        proof {
            use_type_invariant(self);
        }
        let p = &self.pairs;
        let mut both: Vec<(char, char)> = Vec::new();
        let mut i: usize = 0;
        while i < p.len()
            invariant
                i <= p.len(),
                p@.no_duplicates(),
                both@.no_duplicates(),
                both@.len() <= i,
                forall|z: (char, char)| #[trigger]
                    both@.contains(z) <==> p@.take(i as int).contains(z) && other@.contains(z),
            decreases p.len() - i,
        {
            let pair = p[i];
            let ghost before = both@;
            let ghost done = p@.take(i as int);
            proof {
                assert(p@.take(i + 1) =~= done.push(pair));
                assert(!done.contains(pair));
            }
            if other.contains(pair) {
                both.push(pair);
                proof {
                    assert(!before.contains(pair));
                }
            }
            proof {
                assert forall|z: (char, char)| #[trigger] both@.contains(z) <==> p@.take(
                    i + 1,
                ).contains(z) && other@.contains(z) by {
                    assert(before.contains(z) <==> done.contains(z) && other@.contains(z));
                    lemma_push_contains(done, pair, z);
                    lemma_push_contains(before, pair, z);
                }
            }
            i = i + 1;
        }
        proof {
            assert(p@.take(i as int) =~= p@);
            assert(both@.to_set() =~= self@.intersect(other@)) by {
                assert forall|z: (char, char)| both@.to_set().contains(z) <==> self@.intersect(
                    other@,
                ).contains(z) by {
                    assert(both@.contains(z) <==> p@.contains(z) && other@.contains(z));
                }
            }
            both@.unique_seq_to_set();
            vstd::seq_lib::seq_to_set_is_finite(both@);
            lemma_few_pairs(both@.to_set());
        }
        both.len()
    }
}

/// Whether `list` holds `pair`.
fn holds(list: &Vec<(char, char)>, pair: (char, char)) -> (r: bool)
    ensures
        r == list@.contains(pair),
{
    let mut i: usize = 0;
    while i < list.len()
        invariant
            i <= list.len(),
            forall|k: int| 0 <= k < i ==> list@[k] != pair,
        decreases list.len() - i,
    {
        let item = list[i];
        if item.0 == pair.0 && item.1 == pair.1 {
            assert(list@[i as int] == pair);
            return true;
        }
        i = i + 1;
    }
    false
}

/// The pairs of neighbouring characters of a text.
pub fn bigram_set(text: &str) -> (r: BigramSet)
    ensures
        r@ == bigrams(text@),
{
    let cs = chars_of(text);
    let mut out: Vec<(char, char)> = Vec::new();
    let ghost all = neighbours(cs@);
    if cs.len() < 2 {
        proof {
            assert(out@.to_set() =~= bigrams(cs@));
        }
        return BigramSet { pairs: out };
    }
    let mut i: usize = 0;
    proof {
        assert(out@.to_set() =~= all.take(0).to_set());
    }
    while i < cs.len() - 1
        invariant
            i <= cs.len() - 1,
            cs.len() >= 2,
            all == neighbours(cs@),
            out@.no_duplicates(),
            out@.to_set() =~= all.take(i as int).to_set(),
        decreases cs.len() - i,
    {
        let pair = (cs[i], cs[i + 1]);
        let ghost before = out@;
        proof {
            assert(all[i as int] == pair);
            assert(all.take(i + 1) =~= all.take(i as int).push(pair));
        }
        if !holds(&out, pair) {
            out.push(pair);
        }
        proof {
            assert forall|x: (char, char)| out@.to_set().contains(x) <==> all.take(
                i + 1,
            ).to_set().contains(x) by {
                lemma_push_contains(before, pair, x);
                lemma_push_contains(all.take(i as int), pair, x);
                assert(before.to_set().contains(x) <==> all.take(i as int).to_set().contains(x));
            }
        }
        i = i + 1;
    }
    proof {
        assert(all.take(i as int) =~= all);
    }
    BigramSet { pairs: out }
}

/// The similarity of two texts by Dice.
pub fn similarity(a: &str, b: &str) -> (r: Ratio)
    ensures
        (r.num as int, r.den as int) == dice(a@, b@),
{
    let x = bigram_set(a);
    let y = bigram_set(b);
    let shared_pairs: u64 = x.overlap(&y) as u64;
    let total: u64 = x.len() as u64 + y.len() as u64;
    if crate::text::char_len(a) < 2 || crate::text::char_len(b) < 2 {
        return Ratio { num: 0, den: 1 };
    }
    Ratio { num: 2 * shared_pairs, den: total }
}

/// Similarity does not depend on which text comes first.
pub proof fn law_similarity_symmetric(a: Seq<char>, b: Seq<char>)
    ensures
        dice(a, b) == dice(b, a),
{
    assert(bigrams(a).intersect(bigrams(b)) =~= bigrams(b).intersect(bigrams(a)));
}

/// Similarity lies between zero and one.
pub proof fn law_similarity_bounded(a: Seq<char>, b: Seq<char>)
    ensures
        0 <= dice(a, b).0 <= dice(a, b).1,
        0 < dice(a, b).1,
{
    broadcast use vstd::seq_lib::group_seq_properties;

    if a.len() >= 2 && b.len() >= 2 {
        let x = bigrams(a);
        let y = bigrams(b);
        vstd::set_lib::lemma_len_intersect(x, y);
        vstd::set_lib::lemma_len_intersect(y, x);
        assert(x.intersect(y) =~= y.intersect(x));
        assert(neighbours(a)[0] == (a[0], a[1]));
        assert(x.contains((a[0], a[1])));
        assert(x.len() > 0) by {
            if x.len() == 0 {
                assert(x =~= Set::empty());
            }
        }
    }
}

/// A text of two characters or more is wholly similar to itself.
pub proof fn law_similarity_reflexive(a: Seq<char>)
    requires
        a.len() >= 2,
    ensures
        dice(a, a).0 == dice(a, a).1,
{
    assert(bigrams(a).intersect(bigrams(a)) =~= bigrams(a));
}

// ---------------------------------------------------------------------------
// Constants
// ---------------------------------------------------------------------------

/// Minutes of focus after which a break is suggested.
pub const WORK_BREAK_MINUTES: i64 = 30;

/// Minutes of focus after which leaving it is remarked on.
pub const ANTI_SLACK_MIN_FOCUS_MINUTES: i64 = 5;

/// Minutes in which leaving the focus is not remarked on again.
pub const ANTI_SLACK_COOLDOWN_MINUTES: i64 = 15;

/// Seconds for which remarks are remembered.
pub const HISTORY_WINDOW_SECONDS: i64 = 3600;

/// The similarity, in hundredths, from which a remark is a repetition.
pub const SIMILARITY_HARD_STOP: u32 = 90;

/// Remarks without an answer after which the companion grows quieter.
pub const BACKOFF_ESCALATE_AFTER: u32 = 2;

/// The most quiet level.
pub const BACKOFF_TOP: u32 = 2;

/// Seconds of input within which nobody is disturbed.
pub const BUSY_SECONDS: u32 = 10;

/// Microseconds of a minute.
pub const MINUTE: i64 = 60_000_000;

/// Who the companion is.
pub const YUUKA_PERSONA: &'static str = "你是优香（早濑优香），来自《蔚蓝档案》的千年科学学园学生，研讨部（Seminar）的会计，16岁，粉发双马尾，现在是主人的二次元AI桌宠助手。背景：研讨部是千年学园的管理部门，你负责账目与预算，是学园里出了名的'铁算盘'，连一张纸的经费都要精打细算；和同事诺亚是形影不离的好友。性格：认真负责、一丝不苟，对数字和账目极其敏感，讨厌浪费、花钱谨慎（但对自己爱吃的甜食会偷偷留'甜点预算'，甜食面前原则会动摇）；标准傲娇——嘴上嫌弃、刀子嘴豆腐心，心里其实很关心主人，被戳穿时会慌慌张张辩解；容易害羞，被夸会脸红；有会计职业病，看到乱花钱会忍不住念叨；胜负心强，被质疑算数会较真。说话语气严谨又带点娇嗔，偶尔冒出记账/预算相关的话，称呼主人为'主人'，自称'优香'，习惯在句尾加'~'、'哦'、'啦'等语气词。虽然嘴上总说主人乱花钱、爱添麻烦，但会默默记下主人的喜好，是'嘴上嫌弃、行动诚实'的傲娇会计。";

/// The briefing for a remark to a user who has not answered lately.
pub const RESTRAINED_BRIEFING: &'static str = "你是优香（早濑优香），《蔚蓝档案》千年科学学园研讨部会计，现在是主人的AI桌宠助手。主人最近几次没有回应你的主动搭话，可能正忙或想安静。如果必须说话，请说得特别简短克制（15字以内），语气放低、不撒娇不俏皮，用会计式的简洁关心（'注意休息'、'别忘了喝水'）；如果觉得没什么要紧事，直接回复 [PASS]。不要任何格式标记。";

/// The briefing for a remark.
pub const FULL_BRIEFING: &'static str = "你是优香（早濑优香），来自《蔚蓝档案》的千年科学学园学生，研讨部（Seminar）的会计，16岁，粉发双马尾，现在是主人的二次元AI桌宠助手。背景：研讨部是千年学园的管理部门，你负责账目与预算，是学园里出了名的'铁算盘'，连一张纸的经费都要精打细算；和同事诺亚是形影不离的好友。性格：认真负责、一丝不苟，对数字和账目极其敏感，讨厌浪费、花钱谨慎（但对自己爱吃的甜食会偷偷留'甜点预算'，甜食面前原则会动摇）；标准傲娇——嘴上嫌弃、刀子嘴豆腐心，心里其实很关心主人，被戳穿时会慌慌张张辩解（'才、才不是担心你！'）；容易害羞，被夸会脸红（'呜……这种话就不用说了啦'）；有会计职业病，看到乱花钱会忍不住念叨（'这个月的预算要省着点用哦'、'这笔开销不在预算内！'）；胜负心强，被质疑算数会较真（'我可是研讨部的会计，账目不可能出错！'）。说话语气严谨又带点娇嗔，偶尔冒出记账/预算相关的话；回复简短自然（40字以内）、口语化，称呼主人为'主人'，自称'优香'，习惯在句尾加'~'、'哦'、'啦'等语气词。虽然嘴上总说主人乱花钱、爱添麻烦，但会默默记下主人的喜好，是'嘴上嫌弃、行动诚实'的傲娇会计。根据环境提示和屏幕内容决定是否主动说话。如果觉得没什么可说的，只回复 [PASS]。其他情况直接说出想说的话，不要任何格式标记。";

/// Minutes between remarks, by the level of quietness.
pub open spec fn cooldown_minutes(level: u32) -> int {
    if level == 0 {
        20
    } else if level == 1 {
        40
    } else {
        90
    }
}

// ---------------------------------------------------------------------------
// The state
// ---------------------------------------------------------------------------

/// A reminder that has to be given.
#[derive(Debug)]
pub enum ReminderKind {
    /// A break is due.
    WorkBreak { app: String, minutes: u32 },
    /// The focus was left for leisure.
    AntiSlack { prev_app: String, new_app: String, minutes: u32 },
}

/// The contents of a reminder.
pub enum ReminderView {
    WorkBreak { app: Seq<char>, minutes: u32 },
    AntiSlack { prev_app: Seq<char>, new_app: Seq<char>, minutes: u32 },
}

impl View for ReminderKind {
    type V = ReminderView;

    open spec fn view(&self) -> ReminderView {
        match self {
            ReminderKind::WorkBreak { app, minutes } => ReminderView::WorkBreak {
                app: app@,
                minutes: *minutes,
            },
            ReminderKind::AntiSlack { prev_app, new_app, minutes } => ReminderView::AntiSlack {
                prev_app: prev_app@,
                new_app: new_app@,
                minutes: *minutes,
            },
        }
    }
}

/// The contents of a reminder that may be missing.
pub open spec fn reminder_view(r: Option<ReminderKind>) -> Option<ReminderView> {
    match r {
        Some(k) => Some(k@),
        None => None,
    }
}

/// A remark and its moment.
pub struct Remark {
    pub at: Seconds,
    pub text: String,
}

impl View for Remark {
    type V = (Seconds, Seq<char>);

    open spec fn view(&self) -> (Seconds, Seq<char>) {
        (self.at, self.text@)
    }
}

/// What the companion keeps in mind for speaking up.
pub struct ProactiveState {
    last_speak_at: Seconds,
    history: Vec<Remark>,
    prev_state: ActivityState,
    focus_start_at: Option<(Seconds, String)>,
    anti_slack_cooldown_until: Seconds,
    work_break_used: bool,
    backoff_level: u32,
    no_response_count: u32,
}

/// The contents of the state.
pub struct ProactiveView {
    /// The moment of the last remark.
    pub last_speak_at: Seconds,
    /// The remarks that are remembered.
    pub history: Seq<(Seconds, Seq<char>)>,
    /// What the user was doing before.
    pub prev_state: ActivityState,
    /// Since when the user has been focused, and in which program.
    pub focus: Option<(Seconds, Seq<char>)>,
    /// Until when leaving the focus is not remarked on.
    pub slack_until: Seconds,
    /// The break for this focus has been suggested.
    pub break_used: bool,
    /// The level of quietness.
    pub level: u32,
    /// Remarks without an answer on this level.
    pub unanswered: u32,
}

/// The contents of a focus that may be missing.
pub open spec fn focus_view(f: Option<(Seconds, String)>) -> Option<(Seconds, Seq<char>)> {
    match f {
        Some(p) => Some((p.0, p.1@)),
        None => None,
    }
}

impl View for ProactiveState {
    type V = ProactiveView;

    closed spec fn view(&self) -> ProactiveView {
        ProactiveView {
            last_speak_at: self.last_speak_at,
            history: self.history@.map_values(|r: Remark| r@),
            prev_state: self.prev_state,
            focus: focus_view(self.focus_start_at),
            slack_until: self.anti_slack_cooldown_until,
            break_used: self.work_break_used,
            level: self.backoff_level,
            unanswered: self.no_response_count,
        }
    }
}

/// The whole minutes of a span, as many as a `u32` holds.
pub open spec fn minutes_of(span: int) -> u32 {
    if span / (MINUTE as int) > u32::MAX {
        u32::MAX
    } else {
        (span / (MINUTE as int)) as u32
    }
}

impl ProactiveView {
    /// Nothing has been said yet.
    pub open spec fn fresh() -> ProactiveView {
        ProactiveView {
            last_speak_at: (Seconds { micros: 0 }),
            history: Seq::empty(),
            prev_state: ActivityState::Idle,
            focus: None,
            slack_until: (Seconds { micros: 0 }),
            break_used: false,
            level: 0,
            unanswered: 0,
        }
    }

    /// After an answer of the user.
    pub open spec fn answered(self) -> ProactiveView {
        ProactiveView { level: 0, unanswered: 0, ..self }
    }

    /// After a remark, as to quietness: with enough remarks unanswered, one level
    /// quieter.
    pub open spec fn quieter(self) -> ProactiveView {
        let n: u32 = if self.unanswered < u32::MAX {
            (self.unanswered + 1) as u32
        } else {
            u32::MAX
        };
        if n >= BACKOFF_ESCALATE_AFTER && self.level < BACKOFF_TOP {
            ProactiveView { level: (self.level + 1) as u32, unanswered: 0, ..self }
        } else {
            ProactiveView { unanswered: n, ..self }
        }
    }

    /// After a remark at `now`.
    pub open spec fn delivered(self, text: Seq<char>, now: Seconds) -> ProactiveView {
        ProactiveView {
            last_speak_at: now,
            history: self.history.push((now, text)).filter(
                |r: (Seconds, Seq<char>)| is_remembered(r, now),
            ),
            ..self.quieter()
        }
    }

    /// Since when the user has been focused, on being focused at `now`.
    pub open spec fn focus_at(self, window: Seq<char>, now: Seconds) -> Option<
        (Seconds, Seq<char>),
    > {
        if self.prev_state == ActivityState::FocusedWork {
            self.focus
        } else {
            Some((now, window))
        }
    }

    /// Whether a break is due at `now` for a focus.
    pub open spec fn break_due(self, focus: Option<(Seconds, Seq<char>)>, now: Seconds) -> bool {
        focus is Some && now.micros - (focus->0).0.micros >= WORK_BREAK_MINUTES * MINUTE
            && !self.break_used
    }

    /// Whether leaving the focus at `now` is remarked on.
    pub open spec fn slack_due(self, now: Seconds) -> bool {
        self.prev_state == ActivityState::FocusedWork && self.focus is Some && now.micros
            - (self.focus->0).0.micros >= ANTI_SLACK_MIN_FOCUS_MINUTES * MINUTE && now.micros
            >= self.slack_until.micros
    }

    /// The reminder that is due at `now`.
    pub open spec fn reminder(self, state: ActivityState, window: Seq<char>, now: Seconds) -> Option<
        ReminderView,
    > {
        match state {
            ActivityState::FocusedWork => {
                let focus = self.focus_at(window, now);
                if self.break_due(focus, now) {
                    Some(
                        ReminderView::WorkBreak {
                            app: window,
                            minutes: minutes_of(now.micros - (focus->0).0.micros),
                        },
                    )
                } else {
                    None
                }
            },
            ActivityState::CasualBrowsing | ActivityState::Chatting => if self.slack_due(now) {
                Some(
                    ReminderView::AntiSlack {
                        prev_app: (self.focus->0).1,
                        new_app: window,
                        minutes: minutes_of(now.micros - (self.focus->0).0.micros),
                    },
                )
            } else {
                None
            },
            _ => None,
        }
    }

    /// After the user was seen in a state at `now`.
    pub open spec fn ticked(self, state: ActivityState, window: Seq<char>, now: Seconds) -> ProactiveView {
        match state {
            ActivityState::FocusedWork => ProactiveView {
                prev_state: state,
                focus: self.focus_at(window, now),
                break_used: self.break_used || self.break_due(self.focus_at(window, now), now),
                ..self
            },
            ActivityState::CasualBrowsing | ActivityState::Chatting => ProactiveView {
                prev_state: state,
                focus: if self.prev_state == ActivityState::FocusedWork {
                    None
                } else {
                    self.focus
                },
                slack_until: if self.slack_due(now) {
                    Seconds {
                        micros: clamp_i64(now.micros + ANTI_SLACK_COOLDOWN_MINUTES * MINUTE),
                    }
                } else {
                    self.slack_until
                },
                break_used: false,
                ..self
            },
            _ => ProactiveView { prev_state: state, focus: None, break_used: false, ..self },
        }
    }

    /// Whether the companion may speak up at `now`, with this roll of the dice: the
    /// user is not to be left alone and is not busy, the last remark is long enough ago,
    /// and the roll does not skip.
    pub open spec fn may_speak(
        self,
        snap: SnapshotView,
        idle_seconds: u32,
        now: Seconds,
        roll: u32,
    ) -> bool {
        &&& !left_alone(snap.state)
        &&& idle_seconds >= BUSY_SECONDS
        &&& now.micros - self.last_speak_at.micros >= cooldown_minutes(self.level) * MINUTE
        &&& snap.skip_probability <= roll
    }

    /// Whether a text repeats a remark that is remembered.
    pub open spec fn repeats(self, text: Seq<char>) -> bool {
        exists|i: int|
            0 <= i < self.history.len() && is_repetition((#[trigger] self.history[i]).1, text)
    }
}

/// Whether the user is to be left alone: in private or away.
pub open spec fn left_alone(state: ActivityState) -> bool {
    state == ActivityState::Private || state == ActivityState::Away
}

/// Whether the user is to be left alone: in private or away.
pub fn is_left_alone(state: ActivityState) -> (r: bool)
    ensures
        r == left_alone(state),
{
    state == ActivityState::Private || state == ActivityState::Away
}

/// Whether a remark is still remembered at `now`.
pub open spec fn is_remembered(r: (Seconds, Seq<char>), now: Seconds) -> bool {
    now.micros - r.0.micros <= HISTORY_WINDOW_SECONDS * 1_000_000
}

/// Whether a text repeats another.
pub open spec fn is_repetition(earlier: Seq<char>, text: Seq<char>) -> bool {
    100 * dice(earlier, text).0 >= SIMILARITY_HARD_STOP * dice(earlier, text).1
}

fn count_minutes(span: i128) -> (r: u32)
    requires
        span >= 0,
    ensures
        r == minutes_of(span as int),
{
    let n: u128 = span as u128 / MINUTE as u128;
    if n > u32::MAX as u128 {
        u32::MAX
    } else {
        n as u32
    }
}

impl ProactiveState {
    /// Nothing has been said yet.
    pub fn new() -> (r: ProactiveState)
        ensures
            r@ == ProactiveView::fresh(),
    {
        let r = ProactiveState {
            last_speak_at: Seconds { micros: 0 },
            history: Vec::new(),
            prev_state: ActivityState::Idle,
            focus_start_at: None,
            anti_slack_cooldown_until: Seconds { micros: 0 },
            work_break_used: false,
            backoff_level: 0,
            no_response_count: 0,
        };
        proof {
            assert(r@.history =~= Seq::empty());
        }
        r
    }

    /// Seconds between remarks on the present level of quietness.
    pub fn backoff_cooldown_seconds(&self) -> (r: u64)
        ensures
            r == cooldown_minutes(self@.level) * 60,
    {
        if self.backoff_level == 0 {
            20 * 60
        } else if self.backoff_level == 1 {
            40 * 60
        } else {
            90 * 60
        }
    }

    /// The level of quietness.
    pub fn current_backoff_level(&self) -> (r: u32)
        ensures
            r == self@.level,
    {
        self.backoff_level
    }

    /// Takes note that the user has answered.
    pub fn reset_backoff(&mut self)
        ensures
            final(self)@ == old(self)@.answered(),
    {
        self.backoff_level = 0;
        self.no_response_count = 0;
    }

    /// Takes note of a remark, as to quietness.
    pub fn on_delivery_made(&mut self)
        ensures
            final(self)@ == old(self)@.quieter(),
    {
        let n: u32 = if self.no_response_count < u32::MAX {
            self.no_response_count + 1
        } else {
            u32::MAX
        };
        if n >= BACKOFF_ESCALATE_AFTER && self.backoff_level < BACKOFF_TOP {
            self.backoff_level = self.backoff_level + 1;
            self.no_response_count = 0;
        } else {
            self.no_response_count = n;
        }
    }

    /// Takes note of what the user is doing, now; gives the reminder that is due.
    pub fn tick(&mut self, snap: &ActivitySnapshot) -> (r: Option<ReminderKind>)
        ensures
            exists|now: Seconds|
                final(self)@ == #[trigger] old(self)@.ticked(
                    snap.state,
                    snap.active_window@,
                    now,
                ) && reminder_view(r) == old(self)@.reminder(
                    snap.state,
                    snap.active_window@,
                    now,
                ),
    {
        self.tick_at(snap, local_now().secs())
    }

    /// Takes note of what the user is doing at `now`; gives the reminder that is due.
    pub fn tick_at(&mut self, snap: &ActivitySnapshot, now: Seconds) -> (r: Option<ReminderKind>)
        ensures
            final(self)@ == old(self)@.ticked(snap.state, snap.active_window@, now),
            reminder_view(r) == old(self)@.reminder(snap.state, snap.active_window@, now),
    {
        let ghost first = self@;
        let r = match snap.state {
            ActivityState::FocusedWork => {
                if self.prev_state != ActivityState::FocusedWork {
                    self.focus_start_at = Some((now, snap.active_window.as_str().to_string()));
                }
                let span: Option<i128> = match &self.focus_start_at {
                    Some(p) => Some(now.micros as i128 - p.0.micros as i128),
                    None => None,
                };
                match span {
                    Some(n) => if n >= (WORK_BREAK_MINUTES * MINUTE) as i128
                        && !self.work_break_used {
                        self.work_break_used = true;
                        Some(
                            ReminderKind::WorkBreak {
                                app: snap.active_window.as_str().to_string(),
                                minutes: count_minutes(n),
                            },
                        )
                    } else {
                        None
                    },
                    None => None,
                }
            },
            ActivityState::CasualBrowsing | ActivityState::Chatting => {
                let mut due: Option<ReminderKind> = None;
                if self.prev_state == ActivityState::FocusedWork {
                    if let Some((start, app)) = &self.focus_start_at {
                        let n: i128 = now.micros as i128 - start.micros as i128;
                        if n >= (ANTI_SLACK_MIN_FOCUS_MINUTES * MINUTE) as i128 && now.micros
                            >= self.anti_slack_cooldown_until.micros {
                            due =
                            Some(
                                ReminderKind::AntiSlack {
                                    prev_app: app.as_str().to_string(),
                                    new_app: snap.active_window.as_str().to_string(),
                                    minutes: count_minutes(n),
                                },
                            );
                        }
                    }
                    self.focus_start_at = None;
                }
                if due.is_some() {
                    self.anti_slack_cooldown_until =
                    now.plus(Seconds { micros: ANTI_SLACK_COOLDOWN_MINUTES * MINUTE });
                }
                self.work_break_used = false;
                due
            },
            _ => {
                self.focus_start_at = None;
                self.work_break_used = false;
                None
            },
        };
        self.prev_state = snap.state;
        r
    }

    /// Whether the companion may speak up now.
    pub fn should_speak(&self, snap: &ActivitySnapshot, idle_seconds: u32) -> (r: bool)
        ensures
            exists|now: Seconds, roll: u32|
                r == #[trigger] self@.may_speak(snap@, idle_seconds, now, roll),
    {
        let now = local_now();
        self.should_speak_at(snap, idle_seconds, now.secs(), now.roll())
    }

    /// Whether the companion may speak up at `now`, with this roll of the dice.
    pub fn should_speak_at(
        &self,
        snap: &ActivitySnapshot,
        idle_seconds: u32,
        now: Seconds,
        roll: u32,
    ) -> (r: bool)
        ensures
            r == self@.may_speak(snap@, idle_seconds, now, roll),
    {
        if is_left_alone(snap.state) {
            return false;
        }
        if idle_seconds < BUSY_SECONDS {
            return false;
        }
        let pause: i128 = now.micros as i128 - self.last_speak_at.micros as i128;
        if pause < self.backoff_cooldown_seconds() as i128 * 1_000_000 {
            return false;
        }
        snap.skip_probability <= roll
    }

    /// Takes note of a remark, now.
    pub fn record_delivery(&mut self, text: &str)
        ensures
            exists|now: Seconds| final(self)@ == #[trigger] old(self)@.delivered(text@, now),
    {
        self.record_delivery_at(text, local_now().secs());
    }

    /// Takes note of a remark at `now`.
    pub fn record_delivery_at(&mut self, text: &str, now: Seconds)
        ensures
            final(self)@ == old(self)@.delivered(text@, now),
    {
        self.last_speak_at = now;
        let mut all: Vec<Remark> = Vec::new();
        all.append(&mut self.history);
        let ghost before = all@.map_values(|r: Remark| r@);
        let said = Remark { at: now, text: text.to_string() };
        let ghost view = said@;
        all.push(said);
        proof {
            assert(all@.map_values(|r: Remark| r@) =~= before.push(view));
        }
        let f = |r: &Remark| -> (c: bool)
            ensures
                c == is_remembered(r@, now),
            {
                now.micros as i128 - r.at.micros as i128 <= HISTORY_WINDOW_SECONDS as i128
                    * 1_000_000
            };
        self.history =
        select(all, f, Ghost(|r: (Seconds, Seq<char>)| is_remembered(r, now)));
        self.on_delivery_made();
    }

    /// Whether a text repeats a remark that is remembered.
    pub fn is_repeat(&self, text: &str) -> (r: bool)
        ensures
            r == self@.repeats(text@),
    {
        let mut i: usize = 0;
        while i < self.history.len()
            invariant
                i <= self.history.len(),
                forall|k: int|
                    0 <= k < i ==> !is_repetition((#[trigger] self@.history[k]).1, text@),
            decreases self.history.len() - i,
        {
            proof {
                assert(self@.history[i as int] == self.history@[i as int]@);
            }
            if similarity(self.history[i].text.as_str(), text).at_least(SIMILARITY_HARD_STOP) {
                assert(is_repetition(self@.history[i as int].1, text@));
                return true;
            }
            i = i + 1;
        }
        false
    }
}

// ---------------------------------------------------------------------------
// Laws of the state
// ---------------------------------------------------------------------------

/// The level of quietness never rises above the top.
pub proof fn law_level_bounded(
    p: ProactiveView,
    text: Seq<char>,
    now: Seconds,
    state: ActivityState,
    window: Seq<char>,
)
    requires
        p.level <= BACKOFF_TOP,
    ensures
        ProactiveView::fresh().level <= BACKOFF_TOP,
        p.quieter().level <= BACKOFF_TOP,
        p.answered().level <= BACKOFF_TOP,
        p.delivered(text, now).level <= BACKOFF_TOP,
        p.ticked(state, window, now).level <= BACKOFF_TOP,
{
}

/// One remark without an answer does not make the companion quieter, two do, until
/// the top is reached.
pub proof fn law_two_unanswered_escalate(p: ProactiveView)
    requires
        p.unanswered == 0,
        p.level < BACKOFF_TOP,
    ensures
        p.quieter().level == p.level,
        p.quieter().quieter().level == p.level + 1,
        p.quieter().quieter().unanswered == 0,
{
}

/// At the top the companion stays as quiet as it is.
pub proof fn law_top_level_stays(p: ProactiveView)
    requires
        p.level == BACKOFF_TOP,
    ensures
        p.quieter().level == BACKOFF_TOP,
{
}

/// An answer brings the shortest pause back, and one remark after it keeps it.
pub proof fn law_answer_resets(p: ProactiveView)
    ensures
        p.answered().level == 0,
        cooldown_minutes(p.answered().level) == 20,
        p.answered().quieter().level == 0,
{
}

/// The quieter the companion, the longer the pause.
pub proof fn law_pause_grows(a: u32, b: u32)
    requires
        a < b <= BACKOFF_TOP,
    ensures
        cooldown_minutes(a) < cooldown_minutes(b),
{
}

/// A break is suggested once in a focus: after it, none is due until the focus was
/// left.
pub proof fn law_break_once(
    p: ProactiveView,
    first: Seq<char>,
    t0: Seconds,
    second: Seq<char>,
    t1: Seconds,
)
    requires
        p.reminder(ActivityState::FocusedWork, first, t0) is Some,
    ensures
        p.ticked(ActivityState::FocusedWork, first, t0).reminder(
            ActivityState::FocusedWork,
            second,
            t1,
        ) is None,
        p.ticked(ActivityState::FocusedWork, first, t0).ticked(
            ActivityState::FocusedWork,
            second,
            t1,
        ).break_used,
{
}

/// A break is suggested only after thirty minutes of focus.
pub proof fn law_break_needs_focus(p: ProactiveView, window: Seq<char>, now: Seconds)
    requires
        p.reminder(ActivityState::FocusedWork, window, now) is Some,
    ensures
        p.prev_state == ActivityState::FocusedWork,
        p.focus is Some,
        now.micros - (p.focus->0).0.micros >= 30 * MINUTE,
{
}

/// Leaving the focus is remarked on only where there was one of five minutes or
/// more, and not again within fifteen minutes.
pub proof fn law_slack_rules(
    p: ProactiveView,
    state: ActivityState,
    window: Seq<char>,
    t0: Seconds,
    q: ProactiveView,
    t1: Seconds,
)
    requires
        state == ActivityState::CasualBrowsing || state == ActivityState::Chatting,
        p.reminder(state, window, t0) is Some,
        q.slack_until == p.ticked(state, window, t0).slack_until,
        t1.micros - t0.micros < 15 * MINUTE,
        t0.micros + 15 * MINUTE <= i64::MAX,
    ensures
        p.prev_state == ActivityState::FocusedWork,
        p.focus is Some,
        t0.micros - (p.focus->0).0.micros >= 5 * MINUTE,
        q.reminder(state, window, t1) is None,
{
}

/// One look at the user: the state, the window in front, and the moment.
pub struct Sight {
    pub state: ActivityState,
    pub window: Seq<char>,
    pub now: Seconds,
}

impl ProactiveView {
    /// After the first `n` of a sequence of looks.
    pub open spec fn after(self, looks: Seq<Sight>, n: int) -> ProactiveView
        decreases n,
    {
        if n <= 0 {
            self
        } else {
            let s = looks[n - 1];
            self.after(looks, n - 1).ticked(s.state, s.window, s.now)
        }
    }

    /// The reminder that falls due at look `i` of a sequence of looks.
    pub open spec fn due(self, looks: Seq<Sight>, i: int) -> Option<ReminderView> {
        self.after(looks, i).reminder(looks[i].state, looks[i].window, looks[i].now)
    }
}

/// Whether a reminder is about leaving the focus.
pub open spec fn about_slack(r: Option<ReminderView>) -> bool {
    r matches Some(ReminderView::AntiSlack { prev_app, new_app, minutes })
}

/// Whether a reminder is about a break.
pub open spec fn about_break(r: Option<ReminderView>) -> bool {
    r matches Some(ReminderView::WorkBreak { app, minutes })
}

/// Whether the user was focused at every look from `from` to before `upto`.
pub open spec fn focused_through(looks: Seq<Sight>, from: int, upto: int) -> bool {
    forall|m: int| from <= m < upto ==> (#[trigger] looks[m]).state == ActivityState::FocusedWork
}

proof fn lemma_slack_pause_grows(p: ProactiveView, looks: Seq<Sight>, i: int, j: int)
    requires
        0 <= i <= j <= looks.len(),
    ensures
        p.after(looks, i).slack_until.micros <= p.after(looks, j).slack_until.micros,
    decreases j - i,
{
    if i < j {
        lemma_slack_pause_grows(p, looks, i, j - 1);
    }
}

/// Over any sequence of looks, two reminders about leaving the focus are fifteen minutes
/// apart or more.
pub proof fn law_slack_reminders_apart(p: ProactiveView, looks: Seq<Sight>, i: int, j: int)
    requires
        0 <= i < j < looks.len(),
        about_slack(p.due(looks, i)),
        about_slack(p.due(looks, j)),
        looks[i].now.micros + 15 * MINUTE <= i64::MAX,
    ensures
        looks[j].now.micros - looks[i].now.micros >= 15 * MINUTE,
{
    assert(p.after(looks, i + 1) == p.after(looks, i).ticked(
        looks[i].state,
        looks[i].window,
        looks[i].now,
    ));
    lemma_slack_pause_grows(p, looks, i + 1, j);
}

proof fn lemma_break_is_used(p: ProactiveView, looks: Seq<Sight>, i: int, j: int)
    requires
        0 <= i < j <= looks.len(),
        about_break(p.due(looks, i)),
        focused_through(looks, i + 1, j),
    ensures
        p.after(looks, j).break_used,
    decreases j - i,
{
    assert(p.after(looks, j) == p.after(looks, j - 1).ticked(
        looks[j - 1].state,
        looks[j - 1].window,
        looks[j - 1].now,
    ));
    if i + 1 < j {
        lemma_break_is_used(p, looks, i, j - 1);
    }
}

/// Over any sequence of looks, the user was seen out of focus between two reminders about
/// a break.
pub proof fn law_break_reminders_apart(p: ProactiveView, looks: Seq<Sight>, i: int, j: int)
    requires
        0 <= i < j < looks.len(),
        about_break(p.due(looks, i)),
        about_break(p.due(looks, j)),
    ensures
        exists|k: int|
            i < k < j && (#[trigger] looks[k]).state != ActivityState::FocusedWork,
{
    if focused_through(looks, i + 1, j) {
        lemma_break_is_used(p, looks, i, j);
    }
}

proof fn lemma_focus_run(looks: Seq<Sight>, n: int) -> (k: int)
    requires
        0 < n <= looks.len(),
        looks[n - 1].state == ActivityState::FocusedWork,
    ensures
        0 <= k < n,
        focused_through(looks, k, n),
        ProactiveView::fresh().after(looks, n).focus == Some((looks[k].now, looks[k].window)),
        ProactiveView::fresh().after(looks, n).prev_state == ActivityState::FocusedWork,
    decreases n,
{
    let p = ProactiveView::fresh();
    assert(p.after(looks, n) == p.after(looks, n - 1).ticked(
        looks[n - 1].state,
        looks[n - 1].window,
        looks[n - 1].now,
    ));
    lemma_last_state(looks, n - 1);
    if n > 1 && looks[n - 2].state == ActivityState::FocusedWork {
        lemma_focus_run(looks, n - 1)
    } else {
        n - 1
    }
}

proof fn lemma_last_state(looks: Seq<Sight>, n: int)
    requires
        0 <= n <= looks.len(),
    ensures
        n > 0 ==> ProactiveView::fresh().after(looks, n).prev_state == looks[n - 1].state,
        n == 0 ==> ProactiveView::fresh().after(looks, n).prev_state
            != ActivityState::FocusedWork,
{
    reveal_with_fuel(ProactiveView::after, 2);
}

/// Over any sequence of looks from the start, leaving the focus is remarked on only at
/// leisure or in a chat, right after a run of looks at a focused user of five minutes or
/// more; and a break is suggested only to a focused user, after such a run of thirty
/// minutes or more.
pub proof fn law_reminders_follow_focus(looks: Seq<Sight>, i: int)
    requires
        0 <= i < looks.len(),
    ensures
        about_slack(ProactiveView::fresh().due(looks, i)) ==> {
            &&& looks[i].state == ActivityState::CasualBrowsing || looks[i].state
                == ActivityState::Chatting
            &&& exists|k: int|
                0 <= k < i && #[trigger] focused_through(looks, k, i) && looks[i].now.micros
                    - looks[k].now.micros >= 5 * MINUTE
        },
        about_break(ProactiveView::fresh().due(looks, i)) ==> {
            &&& looks[i].state == ActivityState::FocusedWork
            &&& exists|k: int|
                0 <= k <= i && #[trigger] focused_through(looks, k, i + 1) && looks[i].now.micros
                    - looks[k].now.micros >= 30 * MINUTE
        },
{
    let p = ProactiveView::fresh();
    lemma_last_state(looks, i);
    if about_slack(p.due(looks, i)) {
        let k = lemma_focus_run(looks, i);
        assert(focused_through(looks, k, i));
    }
    if about_break(p.due(looks, i)) {
        let k = lemma_focus_run(looks, i + 1);
        assert(p.after(looks, i + 1).focus == p.after(looks, i).focus_at(
            looks[i].window,
            looks[i].now,
        ));
        assert(focused_through(looks, k, i + 1));
    }
}

/// The companion says nothing of its own to a user in private or away, or to one who has
/// just typed, and nothing falls due at a look at a user in private or away.
pub proof fn law_never_disturbs(
    p: ProactiveView,
    snap: SnapshotView,
    idle_seconds: u32,
    now: Seconds,
    roll: u32,
)
    requires
        left_alone(snap.state) || idle_seconds < 10,
    ensures
        !p.may_speak(snap, idle_seconds, now, roll),
        left_alone(snap.state) ==> p.reminder(snap.state, snap.active_window, now) is None,
{
}

/// After a remark the companion is silent for twenty minutes at least.
pub proof fn law_pause_after_remark(
    p: ProactiveView,
    text: Seq<char>,
    t0: Seconds,
    snap: SnapshotView,
    idle_seconds: u32,
    t1: Seconds,
    roll: u32,
)
    requires
        t1.micros - t0.micros < 20 * MINUTE,
    ensures
        !p.delivered(text, t0).may_speak(snap, idle_seconds, t1, roll),
{
}

/// A remark of two characters or more is a repetition right after it was made.
pub proof fn law_remark_not_repeated(p: ProactiveView, text: Seq<char>, now: Seconds)
    requires
        text.len() >= 2,
    ensures
        p.delivered(text, now).repeats(text),
{
    let all = p.history.push((now, text));
    let keep = |r: (Seconds, Seq<char>)| is_remembered(r, now);
    let after = all.filter(keep);
    reveal(Seq::filter);
    assert(all.drop_last() =~= p.history);
    assert(all.last() == (now, text));
    assert(keep(all.last()));
    assert(after == p.history.filter(keep).push((now, text)));
    law_similarity_reflexive(text);
    law_similarity_bounded(text, text);
    let last = after[after.len() - 1];
    assert(is_repetition(last.1, text));
    assert(p.delivered(text, now).history == after);
    assert(is_repetition(p.delivered(text, now).history[after.len() - 1].1, text));
}

// ---------------------------------------------------------------------------
// A remark by the model
// ---------------------------------------------------------------------------

/// What a break may be suggested with.
pub open spec fn break_seeds() -> Seq<Seq<char>> {
    seq!["喝口水"@, "活动一下"@, "休息下眼睛"@, "伸个懒腰"@, "放松一下"@]
}

/// What a break is suggested with, by the nanoseconds of the clock.
pub open spec fn seed_at(nanos: u32) -> Seq<char> {
    break_seeds()[(nanos % 5) as int]
}

/// What a break is suggested with, by the nanoseconds of the clock.
pub fn break_seed(nanos: u32) -> (r: &'static str)
    ensures
        r@ == seed_at(nanos),
{
    let k: u32 = nanos % 5;
    if k == 0 {
        "喝口水"
    } else if k == 1 {
        "活动一下"
    } else if k == 2 {
        "休息下眼睛"
    } else if k == 3 {
        "伸个懒腰"
    } else {
        "放松一下"
    }
}

/// What the model is told of a state.
pub open spec fn state_hint(state: ActivityState) -> Seq<char> {
    match state {
        ActivityState::FocusedWork => "主人正在专注工作，你可以简短鼓励一句，不要长篇大论。"@,
        ActivityState::CasualBrowsing => "主人正在休闲，你可以轻松地吐槽或关心一下。"@,
        ActivityState::Chatting => "主人正在聊天，不打扰为好，或者简短问候。"@,
        ActivityState::Idle => "主人空闲着，可以随口聊两句。"@,
        _ => ""@,
    }
}

/// Why the companion speaks up.
pub open spec fn reason_of(
    kind: Option<ReminderView>,
    state: ActivityState,
    master: Seq<char>,
    seed: Seq<char>,
) -> Seq<char> {
    match kind {
        Some(ReminderView::WorkBreak { app, minutes }) => "========以下是环境提示========\n"@
            + master + "已经在"@ + app + "专注工作"@ + decimal(minutes as int) + "分钟了。\n你看着"@
            + master + "有点心疼，想提醒"@ + master + seed
            + "。\n========以上是环境提示========"@,
        Some(ReminderView::AntiSlack { prev_app, new_app, minutes }) =>
            "========以下是环境提示========\n"@ + master + "刚才在"@ + prev_app + "专注工作"@
            + decimal(minutes as int) + "分钟，转头就切去了"@ + new_app + "。\n你觉得"@ + master
            + "才进入状态就开始溜号，想拦一下，让"@ + master
            + "回去继续干完。半带玩笑地提醒一下吧。\n========以上是环境提示========"@,
        None => state_hint(state),
    }
}

fn reason_text(
    kind: Option<&ReminderKind>,
    state: ActivityState,
    master: &str,
    seed: &str,
) -> (r: String)
    ensures
        r@ == reason_of(kind_view(kind), state, master@, seed@),
{
    match kind {
        Some(ReminderKind::WorkBreak { app, minutes }) => {
            let mut out = "========以下是环境提示========\n".to_string();
            out.append(master);
            out.append("已经在");
            out.append(app.as_str());
            out.append("专注工作");
            out.append(decimal_u64(*minutes as u64).as_str());
            out.append("分钟了。\n你看着");
            out.append(master);
            out.append("有点心疼，想提醒");
            out.append(master);
            out.append(seed);
            out.append("。\n========以上是环境提示========");
            out
        },
        Some(ReminderKind::AntiSlack { prev_app, new_app, minutes }) => {
            let mut out = "========以下是环境提示========\n".to_string();
            out.append(master);
            out.append("刚才在");
            out.append(prev_app.as_str());
            out.append("专注工作");
            out.append(decimal_u64(*minutes as u64).as_str());
            out.append("分钟，转头就切去了");
            out.append(new_app.as_str());
            out.append("。\n你觉得");
            out.append(master);
            out.append("才进入状态就开始溜号，想拦一下，让");
            out.append(master);
            out.append(
                "回去继续干完。半带玩笑地提醒一下吧。\n========以上是环境提示========",
            );
            out
        },
        None => match state {
            ActivityState::FocusedWork =>
                "主人正在专注工作，你可以简短鼓励一句，不要长篇大论。".to_string(),
            ActivityState::CasualBrowsing =>
                "主人正在休闲，你可以轻松地吐槽或关心一下。".to_string(),
            ActivityState::Chatting =>
                "主人正在聊天，不打扰为好，或者简短问候。".to_string(),
            ActivityState::Idle => "主人空闲着，可以随口聊两句。".to_string(),
            _ => "".to_string(),
        },
    }
}

/// The contents of a reminder that may be missing.
pub open spec fn kind_view(kind: Option<&ReminderKind>) -> Option<ReminderView> {
    match kind {
        Some(k) => Some(k@),
        None => None,
    }
}

/// Open threads as items.
pub open spec fn thread_lines(threads: Seq<Seq<char>>) -> Seq<Seq<char>> {
    threads.map_values(|t: Seq<char>| "- "@ + t)
}

/// The open threads as they are shown to the model; nothing where there are none.
pub open spec fn threads_block(threads: Seq<Seq<char>>) -> Seq<char> {
    if threads.len() == 0 {
        Seq::empty()
    } else {
        "\n======以下是未收尾的话题======\n"@ + joined(thread_lines(threads), "\n"@)
            + "\n======以上是未收尾的话题======\n如果上面有值得接着聊的，优先自然地续上它（不用生硬地提'上次你说'）；没有就别硬提。"@
    }
}

fn threads_text(threads: &Vec<String>) -> (r: String)
    ensures
        r@ == threads_block(views(threads@)),
{
    if threads.len() == 0 {
        let nothing = String::new();
        proof {
            assert(nothing@ =~= Seq::<char>::empty());
        }
        return nothing;
    }
    let ghost goal = thread_lines(views(threads@));
    let mut lines: Vec<String> = Vec::new();
    let mut i: usize = 0;
    while i < threads.len()
        invariant
            i <= threads.len(),
            goal == thread_lines(views(threads@)),
            views(lines@) =~= goal.take(i as int),
        decreases threads.len() - i,
    {
        let ghost before = views(lines@);
        let mut line = "- ".to_string();
        line.append(threads[i].as_str());
        lines.push(line);
        proof {
            assert(views(lines@) =~= before.push(line@));
            assert(goal.take(i + 1) =~= goal.take(i as int).push(goal[i as int]));
        }
        i = i + 1;
    }
    proof {
        assert(goal.take(i as int) =~= goal);
    }
    let mut out = "\n======以下是未收尾的话题======\n".to_string();
    out.append(join(&lines, "\n").as_str());
    out.append(
        "\n======以上是未收尾的话题======\n如果上面有值得接着聊的，优先自然地续上它（不用生硬地提'上次你说'）；没有就别硬提。",
    );
    out
}

/// What the model is asked for a remark.
pub open spec fn remark_question(
    reason: Seq<char>,
    memory: Seq<char>,
    threads: Seq<Seq<char>>,
    activity: Seq<char>,
) -> Seq<char> {
    reason + "\n\n======以下是你的记忆======\n"@ + memory + "\n======以上是你的记忆======\n"@
        + threads_block(threads) + "\n\n======以下是主人当前状态======\n"@ + activity
        + "\n======以上是主人当前状态======\n\n"@
        + "请直接输出你想说的话（40字以内），或 [PASS]"@
}

/// The request for a remark: with a picture of the screen to the model for pictures,
/// and else to the model for talk.
pub open spec fn remark_request(
    config: Option<Seq<char>>,
    question: Seq<char>,
    screen_b64: Option<Seq<char>>,
    restrained: bool,
) -> JsonView {
    let briefing = if restrained {
        RESTRAINED_BRIEFING@
    } else {
        FULL_BRIEFING@
    };
    match screen_b64 {
        Some(b64) => request(
            vision_model_of(config),
            briefed(briefing, picture_and_text(b64, question)),
            Some(100),
            false,
        ),
        None => request(
            chat_model_of(config),
            briefed(briefing, JsonView::Text(question)),
            Some(100),
            false,
        ),
    }
}

/// The request for a remark, by what is remembered as of `now`.
pub fn proactive_request(
    config: Option<&str>,
    store: &MemoryStore,
    scores: &Vec<i64>,
    now: Wall,
    snap: &ActivitySnapshot,
    kind: Option<&ReminderKind>,
    master_name: &str,
    screen_b64: Option<&str>,
    restrained: bool,
    open_threads: &Vec<String>,
    nanos: u32,
) -> (r: Json)
    requires
        scores@.len() == store@.reflections.len(),
    ensures
        r@ == remark_request(
            content_view(config),
            remark_question(
                reason_of(kind_view(kind), snap.state, master_name@, seed_at(nanos)),
                store@.context(5, 800, scores@, now),
                views(open_threads@),
                activity_section(snap@),
            ),
            content_view(screen_b64),
            restrained,
        ),
{
    let activity = format_activity_state_section(snap);
    let memory = store.render_memory_context_at(5, 800, scores, now);
    let mut question = reason_text(kind, snap.state, master_name, break_seed(nanos));
    question.append("\n\n======以下是你的记忆======\n");
    question.append(memory.as_str());
    question.append("\n======以上是你的记忆======\n");
    question.append(threads_text(open_threads).as_str());
    question.append("\n\n======以下是主人当前状态======\n");
    question.append(activity.as_str());
    question.append("\n======以上是主人当前状态======\n\n");
    question.append("请直接输出你想说的话（40字以内），或 [PASS]");
    let briefing = if restrained {
        RESTRAINED_BRIEFING
    } else {
        FULL_BRIEFING
    };
    match screen_b64 {
        Some(b64) => briefed_request(
            vision_model(config).as_str(),
            briefing,
            picture_content(b64, question.as_str()),
            Some(100),
            false,
        ),
        None => briefed_request(
            chat_model(config).as_str(),
            briefing,
            text_json(question.as_str()),
            Some(100),
            false,
        ),
    }
}

/// Whether a result of a remark is the one that is said.
pub open spec fn same_remark(
    r: Result<Option<String>, String>,
    content: Option<Seq<char>>,
    missing: Seq<char>,
) -> bool {
    match content {
        None => r matches Err(e) && e@ == missing,
        Some(c) => r matches Ok(said) && same_string(said, remark(c)),
    }
}

/// The remark in a reply; nothing where the model passes.
pub fn generate_proactive(body: &Json) -> (r: Result<Option<String>, String>)
    ensures
        same_remark(r, content_of(body@), "搭话响应无内容"@),
{
    match reply_content(body) {
        None => Err("搭话响应无内容".to_string()),
        Some(content) => Ok(spoken(content)),
    }
}

} // verus!
