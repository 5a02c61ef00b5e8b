//! What speaking up promises: which reminder comes when, when the companion may speak, and
//! what counts as a repetition.

use crate::activity::{ActivityState, SnapshotView};
use crate::clock::Seconds;
use crate::proactive::{
    about_break, about_slack, bigrams, dice, is_remembered, is_repetition, neighbours, reason_of,
    ProactiveView, ReminderView, Sight,
};
use crate::text::decimal;
use crate::text_laws::{lemma_stands_in_sum, stands_in};
use vstd::prelude::*;

verus! {

/// A minute in microseconds.
pub const ONE_MINUTE: i64 = 60_000_000;

// ---------------------------------------------------------------------------
// Likeness
// ---------------------------------------------------------------------------

/// The pairs of a text are its neighbouring characters, each in the order in which they
/// stand.
pub proof fn law_bigrams(s: Seq<char>, a: char, b: char)
    ensures
        bigrams(s).contains((a, b)) <==> exists|i: int|
            0 <= i < s.len() - 1 && #[trigger] s[i] == a && s[i + 1] == b,
{
    let n = neighbours(s);
    if bigrams(s).contains((a, b)) {
        assert(n.contains((a, b)));
        let i = choose|i: int| 0 <= i < n.len() && n[i] == (a, b);
        assert(s[i] == a && s[i + 1] == b);
    }
    if exists|i: int| 0 <= i < s.len() - 1 && #[trigger] s[i] == a && s[i + 1] == b {
        let i = choose|i: int| 0 <= i < s.len() - 1 && #[trigger] s[i] == a && s[i + 1] == b;
        assert(n[i] == (a, b));
        assert(n.contains((a, b)));
    }
}

/// The likeness of two texts is twice the number of pairs that both have over the sum of the
/// numbers of pairs that each has; texts of fewer than two characters are not alike at all.
pub proof fn law_likeness(a: Seq<char>, b: Seq<char>)
    ensures
        a.len() >= 2 && b.len() >= 2 ==> dice(a, b).0 == 2 * bigrams(a).intersect(bigrams(b)).len()
            && dice(a, b).1 == bigrams(a).len() + bigrams(b).len(),
        a.len() < 2 || b.len() < 2 ==> dice(a, b).0 == 0 && dice(a, b).1 == 1,
{
}

/// A text is a repetition if and only if it is nine tenths alike with a remark that is
/// remembered.
pub proof fn law_repetition(p: ProactiveView, text: Seq<char>)
    ensures
        p.repeats(text) <==> exists|i: int|
            0 <= i < p.history.len() && (#[trigger] p.history[i]).1.len() >= 2 && text.len() >= 2
                && 20 * bigrams(p.history[i].1).intersect(bigrams(text)).len() >= 9 * (bigrams(
                p.history[i].1,
            ).len() + bigrams(text).len()),
{
    if p.repeats(text) {
        let i = choose|i: int|
            0 <= i < p.history.len() && is_repetition((#[trigger] p.history[i]).1, text);
        assert(p.history[i].1.len() >= 2);
    }
    if exists|i: int|
        0 <= i < p.history.len() && (#[trigger] p.history[i]).1.len() >= 2 && text.len() >= 2 && 20
            * bigrams(p.history[i].1).intersect(bigrams(text)).len() >= 9 * (bigrams(
            p.history[i].1,
        ).len() + bigrams(text).len()) {
        let i = choose|i: int|
            0 <= i < p.history.len() && (#[trigger] p.history[i]).1.len() >= 2 && text.len() >= 2
                && 20 * bigrams(p.history[i].1).intersect(bigrams(text)).len() >= 9 * (bigrams(
                p.history[i].1,
            ).len() + bigrams(text).len());
        assert(is_repetition(p.history[i].1, text));
    }
}

/// After a remark it is remembered, and of the others those of the last hour are, in their
/// order; the moment of the remark is that of the last one. What is known of the focus stays.
pub proof fn law_remark_is_remembered(p: ProactiveView, text: Seq<char>, now: Seconds)
    ensures
        p.delivered(text, now).history == p.history.filter(
            |r: (Seconds, Seq<char>)| now.micros - r.0.micros <= 3_600_000_000,
        ).push((now, text)),
        p.delivered(text, now).last_speak_at == now,
        p.delivered(text, now).focus == p.focus,
        p.delivered(text, now).prev_state == p.prev_state,
        p.delivered(text, now).slack_until == p.slack_until,
        p.delivered(text, now).break_used == p.break_used,
{
    let keep = |r: (Seconds, Seq<char>)| is_remembered(r, now);
    let raw = |r: (Seconds, Seq<char>)| now.micros - r.0.micros <= 3_600_000_000;
    assert(keep =~= raw) by {
        assert forall|r: (Seconds, Seq<char>)| #[trigger] keep(r) == raw(r) by {}
    }
    reveal(Seq::filter);
    assert(p.history.push((now, text)).drop_last() =~= p.history);
}

/// The companion grows quieter by one level with every second remark that is not answered,
/// until the top; an answer takes it back to the start and changes nothing else.
pub proof fn law_quietness(p: ProactiveView, text: Seq<char>, now: Seconds)
    requires
        p.unanswered < u32::MAX,
    ensures
        ({
            let q = p.delivered(text, now);
            &&& p.unanswered >= 1 && p.level < 2 ==> q.level == p.level + 1 && q.unanswered == 0
            &&& p.unanswered == 0 || p.level >= 2 ==> q.level == p.level && q.unanswered
                == p.unanswered + 1
        }),
        p.answered().level == 0,
        p.answered().unanswered == 0,
        p.answered().history == p.history,
        p.answered().last_speak_at == p.last_speak_at,
        p.answered().focus == p.focus,
        p.answered().slack_until == p.slack_until,
        p.answered().break_used == p.break_used,
        p.answered().prev_state == p.prev_state,
{
}

/// The companion may speak if and only if the user is neither in private nor away, has not
/// typed for ten seconds, the last remark is twenty, forty or ninety minutes ago by the level
/// of quietness, and the dice do not skip.
pub proof fn law_may_speak(
    p: ProactiveView,
    snap: SnapshotView,
    idle_seconds: u32,
    now: Seconds,
    roll: u32,
)
    ensures
        p.may_speak(snap, idle_seconds, now, roll) <==> {
            &&& snap.state != ActivityState::Private
            &&& snap.state != ActivityState::Away
            &&& idle_seconds >= 10
            &&& p.level == 0 ==> now.micros - p.last_speak_at.micros >= 20 * ONE_MINUTE
            &&& p.level == 1 ==> now.micros - p.last_speak_at.micros >= 40 * ONE_MINUTE
            &&& p.level >= 2 ==> now.micros - p.last_speak_at.micros >= 90 * ONE_MINUTE
            &&& roll >= snap.skip_probability
        },
{
}

// ---------------------------------------------------------------------------
// Reminders over the day
// ---------------------------------------------------------------------------

/// Whether a run of looks at a focused user starts at `k` and goes on to before `upto`.
pub open spec fn focus_run(looks: Seq<Sight>, k: int, upto: int) -> bool {
    &&& 0 <= k < upto <= looks.len()
    &&& forall|m: int| k <= m < upto ==> (#[trigger] looks[m]).state == ActivityState::FocusedWork
    &&& k > 0 ==> looks[k - 1].state != ActivityState::FocusedWork
}

proof fn lemma_step(p: ProactiveView, looks: Seq<Sight>, n: int)
    requires
        0 < n <= looks.len(),
    ensures
        p.after(looks, n) == p.after(looks, n - 1).ticked(
            looks[n - 1].state,
            looks[n - 1].window,
            looks[n - 1].now,
        ),
{
}

proof fn lemma_prev(looks: Seq<Sight>, n: int)
    requires
        0 <= n <= looks.len(),
    ensures
        n > 0 ==> ProactiveView::fresh().after(looks, n).prev_state == looks[n - 1].state,
        n == 0 ==> ProactiveView::fresh().after(looks, n) == ProactiveView::fresh(),
        n > 0 && looks[n - 1].state != ActivityState::FocusedWork
            ==> !ProactiveView::fresh().after(looks, n).break_used,
{
    if n > 0 {
        lemma_step(ProactiveView::fresh(), looks, n);
    }
}

proof fn lemma_run_known(looks: Seq<Sight>, k: int, upto: int)
    requires
        focus_run(looks, k, upto),
    ensures
        ProactiveView::fresh().after(looks, upto).prev_state == ActivityState::FocusedWork,
        ProactiveView::fresh().after(looks, upto).focus == Some((looks[k].now, looks[k].window)),
        ProactiveView::fresh().after(looks, upto).break_used ==> exists|j: int|
            k <= j < upto && about_break(#[trigger] ProactiveView::fresh().due(looks, j)),
    decreases upto,
{
    let p = ProactiveView::fresh();
    lemma_step(p, looks, upto);
    lemma_prev(looks, upto - 1);
    assert(looks[upto - 1].state == ActivityState::FocusedWork);
    if upto - 1 > k {
        assert(focus_run(looks, k, upto - 1));
        lemma_run_known(looks, k, upto - 1);
        assert(looks[upto - 2].state == ActivityState::FocusedWork);
        if p.after(looks, upto - 1).break_used {
            let j = choose|j: int|
                k <= j < upto - 1 && about_break(#[trigger] p.due(looks, j));
            assert(about_break(p.due(looks, j)));
        } else if p.after(looks, upto).break_used {
            assert(about_break(p.due(looks, upto - 1)));
        }
    } else {
        assert(!p.after(looks, k).break_used);
    }
}

proof fn lemma_pause_known(looks: Seq<Sight>, n: int)
    requires
        0 <= n <= looks.len(),
        forall|j: int|
            0 <= j < n ==> (#[trigger] looks[j]).now.micros + 15 * ONE_MINUTE <= i64::MAX,
    ensures
        ProactiveView::fresh().after(looks, n).slack_until.micros == 0 || exists|j: int|
            0 <= j < n && about_slack(#[trigger] ProactiveView::fresh().due(looks, j))
                && ProactiveView::fresh().after(looks, n).slack_until.micros
                == looks[j].now.micros + 15 * ONE_MINUTE,
    decreases n,
{
    let p = ProactiveView::fresh();
    if n > 0 {
        lemma_step(p, looks, n);
        lemma_pause_known(looks, n - 1);
        if p.after(looks, n).slack_until != p.after(looks, n - 1).slack_until {
            assert(about_slack(p.due(looks, n - 1)));
            assert(looks[n - 1].now.micros + 15 * ONE_MINUTE <= i64::MAX);
        } else if p.after(looks, n - 1).slack_until.micros != 0 {
            let j = choose|j: int|
                0 <= j < n - 1 && about_slack(#[trigger] p.due(looks, j)) && p.after(
                    looks,
                    n - 1,
                ).slack_until.micros == looks[j].now.micros + 15 * ONE_MINUTE;
            assert(about_slack(p.due(looks, j)));
        }
    }
}

/// Whoever leaves a focus of five minutes or more for leisure or a chat is reminded, unless
/// such a reminder fell due in the fifteen minutes before: of the program in which the focus
/// began, of the one that is now in front, and of the whole minutes of the focus. Nothing
/// else counts, a break that was suggested in the focus least of all.
pub proof fn law_leaving_focus_is_remarked(looks: Seq<Sight>, k: int, i: int)
    requires
        0 <= i < looks.len(),
        focus_run(looks, k, i),
        looks[i].state == ActivityState::CasualBrowsing || looks[i].state
            == ActivityState::Chatting,
        looks[i].now.micros >= 0,
        looks[i].now.micros - looks[k].now.micros >= 5 * ONE_MINUTE,
        (looks[i].now.micros - looks[k].now.micros) / (ONE_MINUTE as int) <= u32::MAX,
        forall|j: int|
            0 <= j < i ==> (#[trigger] looks[j]).now.micros + 15 * ONE_MINUTE <= i64::MAX,
        forall|j: int|
            0 <= j < i && about_slack(#[trigger] ProactiveView::fresh().due(looks, j))
                ==> looks[i].now.micros - looks[j].now.micros >= 15 * ONE_MINUTE,
    ensures
        ProactiveView::fresh().due(looks, i) == Some(
            ReminderView::AntiSlack {
                prev_app: looks[k].window,
                new_app: looks[i].window,
                minutes: ((looks[i].now.micros - looks[k].now.micros) / (
                ONE_MINUTE as int)) as u32,
            },
        ),
{
    lemma_run_known(looks, k, i);
    lemma_pause_known(looks, i);
}

/// Whoever has been focused for thirty minutes or more is reminded of a break, with the
/// program in front and the whole minutes, unless it was done in this focus before.
pub proof fn law_break_is_suggested(looks: Seq<Sight>, k: int, i: int)
    requires
        0 <= i < looks.len(),
        focus_run(looks, k, i + 1),
        looks[i].now.micros - looks[k].now.micros >= 30 * ONE_MINUTE,
        (looks[i].now.micros - looks[k].now.micros) / (ONE_MINUTE as int) <= u32::MAX,
        forall|j: int|
            k <= j < i ==> !about_break(#[trigger] ProactiveView::fresh().due(looks, j)),
    ensures
        ProactiveView::fresh().due(looks, i) == Some(
            ReminderView::WorkBreak {
                app: looks[i].window,
                minutes: ((looks[i].now.micros - looks[k].now.micros) / (
                ONE_MINUTE as int)) as u32,
            },
        ),
{
    assert(i > k);
    assert(focus_run(looks, k, i));
    lemma_run_known(looks, k, i);
    assert(looks[i].state == ActivityState::FocusedWork);
}

/// Nothing falls due at a look at a user who is neither focused nor at leisure nor in a
/// chat, nor at leisure or in a chat right after a look that was not at a focused user.
pub proof fn law_no_reminder_out_of_focus(looks: Seq<Sight>, i: int)
    requires
        0 <= i < looks.len(),
        looks[i].state != ActivityState::FocusedWork,
        i == 0 || looks[i - 1].state != ActivityState::FocusedWork || (looks[i].state
            != ActivityState::CasualBrowsing && looks[i].state != ActivityState::Chatting),
    ensures
        ProactiveView::fresh().due(looks, i) is None,
{
    lemma_prev(looks, i);
}

/// A reminder of a break tells the program, the minutes and what to do; one of a focus that
/// was left tells the program that was left, the minutes, and the one that is now in front.
pub proof fn law_reminders_in_words(
    app: Seq<char>,
    other: Seq<char>,
    minutes: u32,
    state: ActivityState,
    master: Seq<char>,
    seed: Seq<char>,
)
    ensures
        stands_in(
            reason_of(Some(ReminderView::WorkBreak { app, minutes }), state, master, seed),
            master + "已经在"@ + app + "专注工作"@ + decimal(minutes as int) + "分钟了。"@,
        ),
        stands_in(
            reason_of(Some(ReminderView::WorkBreak { app, minutes }), state, master, seed),
            "想提醒"@ + master + seed,
        ),
        stands_in(
            reason_of(
                Some(ReminderView::AntiSlack { prev_app: app, new_app: other, minutes }),
                state,
                master,
                seed,
            ),
            master + "刚才在"@ + app + "专注工作"@ + decimal(minutes as int) + "分钟，转头就切去了"@
                + other,
        ),
{
    reveal_strlit("分钟了。\n你看着");
    reveal_strlit("分钟了。");
    reveal_strlit("\n你看着");
    reveal_strlit("有点心疼，想提醒");
    reveal_strlit("有点心疼，");
    reveal_strlit("想提醒");
    let title = "========以下是环境提示========\n"@;
    let end = "。\n========以上是环境提示========"@;
    let first = master + "已经在"@ + app + "专注工作"@ + decimal(minutes as int) + "分钟了。"@;
    let second = "想提醒"@ + master + seed;
    let r = reason_of(Some(ReminderView::WorkBreak { app, minutes }), state, master, seed);
    assert("分钟了。\n你看着"@ =~= "分钟了。"@ + "\n你看着"@);
    assert("有点心疼，想提醒"@ =~= "有点心疼，"@ + "想提醒"@);
    let middle = "\n你看着"@ + master + "有点心疼，"@;
    assert(r =~= title + first + (middle + second + end));
    assert(r =~= (title + first + middle) + second + end);
    lemma_stands_in_sum(title, first, middle + second + end);
    lemma_stands_in_sum(title + first + middle, second, end);
    let third = master + "刚才在"@ + app + "专注工作"@ + decimal(minutes as int)
        + "分钟，转头就切去了"@ + other;
    let q = reason_of(
        Some(ReminderView::AntiSlack { prev_app: app, new_app: other, minutes }),
        state,
        master,
        seed,
    );
    let rest = "。\n你觉得"@ + master + "才进入状态就开始溜号，想拦一下，让"@ + master
        + "回去继续干完。半带玩笑地提醒一下吧。\n========以上是环境提示========"@;
    assert(q =~= title + third + rest);
    lemma_stands_in_sum(title, third, rest);
}

/// What a user who is reminded of a break is told to do goes round five things.
pub proof fn law_break_seeds(nanos: u32)
    requires
        nanos <= u32::MAX - 5,
    ensures
        crate::proactive::seed_at(nanos) == crate::proactive::seed_at((nanos + 5) as u32),
        nanos % 5 == 0 ==> crate::proactive::seed_at(nanos) == "喝口水"@,
        nanos % 5 == 1 ==> crate::proactive::seed_at(nanos) == "活动一下"@,
        nanos % 5 == 2 ==> crate::proactive::seed_at(nanos) == "休息下眼睛"@,
        nanos % 5 == 3 ==> crate::proactive::seed_at(nanos) == "伸个懒腰"@,
        nanos % 5 == 4 ==> crate::proactive::seed_at(nanos) == "放松一下"@,
{
}

/// Without a reminder the reason to speak goes by what the user is doing.
pub proof fn law_reason_without_reminder(
    state: ActivityState,
    master: Seq<char>,
    seed: Seq<char>,
)
    ensures
        ({
            let r = reason_of(None, state, master, seed);
            &&& state == ActivityState::FocusedWork ==> r
                == "主人正在专注工作，你可以简短鼓励一句，不要长篇大论。"@
            &&& state == ActivityState::CasualBrowsing ==> r
                == "主人正在休闲，你可以轻松地吐槽或关心一下。"@
            &&& state == ActivityState::Chatting ==> r == "主人正在聊天，不打扰为好，或者简短问候。"@
            &&& state == ActivityState::Idle ==> r == "主人空闲着，可以随口聊两句。"@
            &&& state == ActivityState::Away || state == ActivityState::Private || state
                == ActivityState::Transitioning ==> r == ""@
        }),
{
}

/// A likeness reaches a number of hundredths, or is above it, as fractions are compared.
pub proof fn law_fractions(r: crate::proactive::Ratio, percent: int)
    ensures
        r.reaches(percent) <==> 100 * r.num >= percent * r.den,
        r.above(percent) <==> 100 * r.num > percent * r.den,
{
}

/// At the start nothing was said, nobody was focused, no pause runs, and the companion is as
/// talkative as it can be.
pub proof fn law_start()
    ensures
        ({
            let p = ProactiveView::fresh();
            &&& p.level == 0 && p.unanswered == 0
            &&& p.history.len() == 0 && p.last_speak_at.micros == 0
            &&& p.focus is None && p.slack_until.micros == 0 && !p.break_used
            &&& p.prev_state != ActivityState::FocusedWork
        }),
{
}

/// What is known of a focus: on entering it, its moment and its program; as long as it lasts,
/// the same; and nothing once it was left. Leaving it makes room for the next break.
pub proof fn law_focus_known(
    p: ProactiveView,
    state: ActivityState,
    window: Seq<char>,
    now: Seconds,
)
    ensures
        ({
            let q = p.ticked(state, window, now);
            let focused = ActivityState::FocusedWork;
            &&& q.prev_state == state
            &&& state == focused && p.prev_state != focused ==> q.focus == Some((now, window))
            &&& state == focused && p.prev_state == focused ==> q.focus == p.focus
            &&& state != focused && p.prev_state == focused ==> q.focus is None
            &&& state != focused ==> !q.break_used
            &&& q.history == p.history && q.last_speak_at == p.last_speak_at && q.level == p.level
                && q.unanswered == p.unanswered
        }),
{
}

/// One likeness is greater than another as fractions are.
pub proof fn law_greater_likeness(a: crate::proactive::Ratio, b: crate::proactive::Ratio)
    ensures
        a.greater(b) <==> a.num * b.den > b.num * a.den,
{
}

} // verus!
