//! What the pool of topics promises: what is new, when a topic may come, which one comes,
//! and what is taken in.

use crate::clock::Seconds;
use crate::json::JsonView;
use crate::memory::last_of;
use crate::order::{at_most, sorted_by};
use crate::proactive::bigrams;
use crate::text::{lowercase_of, trimmed};
use crate::topic::{
    accepted, candidate_in, candidates_in, candidates_taken, carries_meaning, cleaned, covers,
    first_new, is_kept, is_recent, keywords_in, latest_upto, meaningful_upto, pruned_upto,
    record_answered, says_something, share_keyword, turns_kept, weight_upto, MaterialView,
    PoolView, TurnView, UsedView,
};
use vstd::prelude::*;

verus! {

/// Forty-eight hours in microseconds.
pub const TWO_DAYS: i64 = 172_800_000_000;

/// Four hours in microseconds.
pub const FOUR_HOURS: i64 = 14_400_000_000;

// ---------------------------------------------------------------------------
// What is new
// ---------------------------------------------------------------------------

/// Whether two lists of keywords have one in common, white space round them and letter
/// case aside.
pub open spec fn keyword_in_common(a: Seq<Seq<char>>, b: Seq<Seq<char>>) -> bool {
    exists|i: int, j: int|
        0 <= i < a.len() && 0 <= j < b.len() && lowercase_of(trimmed(#[trigger] a[i]))
            == lowercase_of(trimmed(#[trigger] b[j]))
}

/// Whether two interests are alike: they have two pairs of neighbouring characters or more
/// in common, and these are six tenths or more of the pairs of the one that has fewer.
pub open spec fn interests_alike(a: Seq<char>, b: Seq<char>) -> bool {
    let both = bigrams(a).intersect(bigrams(b)).len();
    both >= 2 && (10 * both >= 6 * bigrams(a).len() || 10 * both >= 6 * bigrams(b).len())
}

/// A topic counts as brought up lately if within forty-eight hours one was brought up that
/// has a keyword in common with it, and just as well if one was whose interest is alike,
/// whatever the keywords of either are; and only then.
pub proof fn law_used_recently(p: PoolView, m: MaterialView, now: Seconds)
    ensures
        p.used_recently(m, now) <==> exists|i: int|
            0 <= i < p.used.len() && now.micros - (#[trigger] p.used[i]).used_at.micros
                <= TWO_DAYS && (keyword_in_common(m.keywords, p.used[i].keywords)
                || interests_alike(m.interest, p.used[i].interest)),
{
    assert forall|i: int| 0 <= i < p.used.len() implies (covers(#[trigger] p.used[i], m, now) <==> (
    now.micros - p.used[i].used_at.micros <= TWO_DAYS && (keyword_in_common(
        m.keywords,
        p.used[i].keywords,
    ) || interests_alike(m.interest, p.used[i].interest)))) by {
        lemma_covers(p.used[i], m, now);
    }
    if p.used_recently(m, now) {
        let i = choose|i: int| 0 <= i < p.used.len() && covers(#[trigger] p.used[i], m, now);
        assert(now.micros - p.used[i].used_at.micros <= TWO_DAYS);
    }
}

proof fn lemma_covers(r: UsedView, m: MaterialView, now: Seconds)
    ensures
        covers(r, m, now) <==> (now.micros - r.used_at.micros <= TWO_DAYS && (keyword_in_common(
            m.keywords,
            r.keywords,
        ) || interests_alike(m.interest, r.interest))),
{
    let (a, b) = (m.keywords, r.keywords);
    if share_keyword(a, b) {
        let (i, j) = choose|i: int, j: int|
            0 <= i < a.len() && 0 <= j < b.len() && crate::topic::key_of(#[trigger] a[i])
                == crate::topic::key_of(#[trigger] b[j]);
        assert(lowercase_of(trimmed(a[i])) == lowercase_of(trimmed(b[j])));
    }
    if keyword_in_common(a, b) {
        let (i, j) = choose|i: int, j: int|
            0 <= i < a.len() && 0 <= j < b.len() && lowercase_of(trimmed(#[trigger] a[i]))
                == lowercase_of(trimmed(#[trigger] b[j]));
        assert(crate::topic::key_of(a[i]) == crate::topic::key_of(b[j]));
    }
}

// ---------------------------------------------------------------------------
// When a topic may come
// ---------------------------------------------------------------------------

/// Whether a record counts for the gap: it is of the last forty-eight hours.
spec fn counts(r: UsedView, now: Seconds) -> bool {
    now.micros - r.used_at.micros <= TWO_DAYS && r.used_at.micros > 0
}

proof fn lemma_latest(used: Seq<UsedView>, now: Seconds, n: int)
    requires
        0 <= n <= used.len(),
    ensures
        0 <= latest_upto(used, now, n),
        forall|i: int|
            0 <= i < n && counts(#[trigger] used[i], now) ==> used[i].used_at.micros <= latest_upto(
                used,
                now,
                n,
            ),
        latest_upto(used, now, n) > 0 ==> exists|i: int|
            0 <= i < n && counts(#[trigger] used[i], now) && used[i].used_at.micros == latest_upto(
                used,
                now,
                n,
            ),
    decreases n,
{
    if n > 0 {
        lemma_latest(used, now, n - 1);
        let rest = latest_upto(used, now, n - 1);
        if is_recent(used[n - 1], now) && used[n - 1].used_at.micros > rest {
            assert(counts(used[n - 1], now));
        } else if rest > 0 {
            let i = choose|i: int|
                0 <= i < n - 1 && counts(#[trigger] used[i], now) && used[i].used_at.micros == rest;
            assert(counts(used[i], now));
        }
    }
}

/// The next topic has to wait if and only if one was brought up less than four hours ago,
/// and it waits until the last one is four hours ago.
pub proof fn law_gap(p: PoolView, now: Seconds)
    ensures
        p.wait(now) >= 0,
        p.wait(now) > 0 <==> exists|i: int|
            0 <= i < p.used.len() && (#[trigger] p.used[i]).used_at.micros > 0 && now.micros
                - p.used[i].used_at.micros < FOUR_HOURS,
        forall|i: int|
            0 <= i < p.used.len() && (#[trigger] p.used[i]).used_at.micros > 0 && now.micros
                - p.used[i].used_at.micros < FOUR_HOURS && FOUR_HOURS - (now.micros
                - p.used[i].used_at.micros) <= i64::MAX ==> p.wait(now) >= FOUR_HOURS - (now.micros
                - p.used[i].used_at.micros),
        0 < p.wait(now) < i64::MAX ==> exists|i: int|
            0 <= i < p.used.len() && p.wait(now) == FOUR_HOURS - (now.micros - (
            #[trigger] p.used[i]).used_at.micros),
{
    let n = p.used.len() as int;
    let latest = latest_upto(p.used, now, n);
    lemma_latest(p.used, now, n);
    if p.wait(now) > 0 {
        let i = choose|i: int|
            0 <= i < n && counts(#[trigger] p.used[i], now) && p.used[i].used_at.micros == latest;
        assert(now.micros - p.used[i].used_at.micros < FOUR_HOURS);
        assert(p.used[i].used_at.micros > 0);
    }
    assert forall|i: int|
        0 <= i < p.used.len() && (#[trigger] p.used[i]).used_at.micros > 0 && now.micros
            - p.used[i].used_at.micros < FOUR_HOURS implies p.wait(now) > 0 by {
        assert(counts(p.used[i], now));
    }
    assert forall|i: int|
        0 <= i < p.used.len() && (#[trigger] p.used[i]).used_at.micros > 0 && now.micros
            - p.used[i].used_at.micros < FOUR_HOURS && FOUR_HOURS - (now.micros
            - p.used[i].used_at.micros) <= i64::MAX implies p.wait(now) >= FOUR_HOURS - (now.micros
        - p.used[i].used_at.micros) by {
        assert(counts(p.used[i], now));
    }
}

/// What topics weigh on a day: nothing at first; one that was brought up on another day adds
/// nothing; one of the day adds its weight, which is one where it is missing, and never less
/// than nothing or more than one.
pub proof fn law_weight_of_a_day(
    used: Seq<UsedView>,
    days: Seq<Seq<char>>,
    today: Seq<char>,
    n: int,
)
    requires
        0 <= n,
    ensures
        weight_upto(used, days, today, 0) == 0,
        days[n] != today ==> weight_upto(used, days, today, n + 1) == weight_upto(
            used,
            days,
            today,
            n,
        ),
        days[n] == today && used[n].weight is None ==> weight_upto(used, days, today, n + 1)
            == weight_upto(used, days, today, n) + 3_000_000,
        days[n] == today && (used[n].weight matches Some(w) && 0 <= w <= 3_000_000)
            ==> weight_upto(used, days, today, n + 1) == weight_upto(used, days, today, n)
            + used[n].weight->0,
        days[n] == today && (used[n].weight matches Some(w) && w < 0) ==> weight_upto(
            used,
            days,
            today,
            n + 1,
        ) == weight_upto(used, days, today, n),
        days[n] == today && (used[n].weight matches Some(w) && w > 3_000_000) ==> weight_upto(
            used,
            days,
            today,
            n + 1,
        ) == weight_upto(used, days, today, n) + 3_000_000,
{
}

/// The topics of a day are enough once they weigh two, but for a millionth.
pub proof fn law_quota(p: PoolView, days: Seq<Seq<char>>, today: Seq<char>)
    ensures
        p.quota_full(days, today) <==> weight_upto(p.used, days, today, p.used.len() as int)
            >= 2 * 3_000_000 - 3,
{
}

proof fn lemma_no_weight(used: Seq<UsedView>, days: Seq<Seq<char>>, today: Seq<char>, n: int)
    requires
        0 <= n <= days.len(),
        forall|i: int| 0 <= i < days.len() ==> #[trigger] days[i] != today,
    ensures
        weight_upto(used, days, today, n) == 0,
    decreases n,
{
    if n > 0 {
        lemma_no_weight(used, days, today, n - 1);
    }
}

/// Topics of other days never make those of today enough.
pub proof fn law_quota_of_other_days(p: PoolView, days: Seq<Seq<char>>, today: Seq<char>)
    requires
        days.len() == p.used.len(),
        forall|i: int| 0 <= i < days.len() ==> #[trigger] days[i] != today,
    ensures
        !p.quota_full(days, today),
{
    lemma_no_weight(p.used, days, today, p.used.len() as int);
}

// ---------------------------------------------------------------------------
// Which topic comes
// ---------------------------------------------------------------------------

proof fn lemma_first_new(p: PoolView, ms: Seq<MaterialView>, now: Seconds)
    ensures
        first_new(p, ms, now) is None <==> forall|i: int|
            0 <= i < ms.len() ==> p.used_recently(#[trigger] ms[i], now),
        first_new(p, ms, now) matches Some(m) ==> exists|i: int|
            0 <= i < ms.len() && m == #[trigger] ms[i] && !p.used_recently(m, now) && forall|k: int|
                0 <= k < i ==> p.used_recently(#[trigger] ms[k], now),
    decreases ms.len(),
{
    if ms.len() > 0 {
        let rest = ms.drop_first();
        if p.used_recently(ms[0], now) {
            lemma_first_new(p, rest, now);
            if first_new(p, rest, now) is None {
                assert forall|i: int| 0 <= i < ms.len() implies p.used_recently(
                    #[trigger] ms[i],
                    now,
                ) by {
                    if i > 0 {
                        assert(rest[i - 1] == ms[i]);
                    }
                }
            } else {
                let m = first_new(p, rest, now)->0;
                let i = choose|i: int|
                    0 <= i < rest.len() && m == #[trigger] rest[i] && !p.used_recently(m, now)
                        && forall|k: int| 0 <= k < i ==> p.used_recently(#[trigger] rest[k], now);
                assert(ms[i + 1] == m);
                assert forall|k: int| 0 <= k < i + 1 implies p.used_recently(
                    #[trigger] ms[k],
                    now,
                ) by {
                    if k > 0 {
                        assert(rest[k - 1] == ms[k]);
                    }
                }
            }
        } else {
            assert(ms[0] == first_new(p, ms, now)->0);
        }
    }
}

/// The topic that comes next is a pending one that was not brought up lately, and of all
/// such one of the greatest relevance. None comes where the topics of the day are enough,
/// where one was brought up less than four hours ago, or where there is no such one; and in
/// no other case.
pub proof fn law_next(p: PoolView, now: Seconds, full: bool)
    ensures
        p.next(now, full) is None <==> full || p.wait(now) > 0 || forall|m: MaterialView|
            #[trigger] p.materials.contains(m) && m.status == "pending"@ ==> p.used_recently(
                m,
                now,
            ),
        p.next(now, full) matches Some(best) ==> p.materials.contains(best) && best.status
            == "pending"@ && !p.used_recently(best, now) && forall|m: MaterialView| #[trigger]
            p.materials.contains(m) && m.status == "pending"@ && !p.used_recently(m, now)
                ==> m.relevance <= best.relevance,
{
    let pick = |m: MaterialView| m.status == "pending"@;
    let before = |a: MaterialView, b: MaterialView| a.relevance > b.relevance;
    let picked = p.materials.filter(pick);
    let ms = p.pending_sorted();
    lemma_first_new(p, ms, now);
    crate::order::lemma_sort_in_order(picked, before);
    assert forall|m: MaterialView| p.materials.contains(m) && m.status == "pending"@ implies
        #[trigger] ms.contains(m) by {
        let i = choose|i: int| 0 <= i < p.materials.len() && p.materials[i] == m;
        p.materials.lemma_filter_contains(pick, i);
        crate::order::lemma_sort_contains(picked, before, m);
    }
    assert forall|m: MaterialView| #[trigger] ms.contains(m) implies p.materials.contains(m)
        && m.status == "pending"@ by {
        crate::order::lemma_sort_contains(picked, before, m);
        crate::memory::lemma_filter_contains(p.materials, pick, m);
    }
    if !full && p.wait(now) <= 0 {
        if first_new(p, ms, now) is None {
            assert forall|m: MaterialView| #[trigger]
                p.materials.contains(m) && m.status == "pending"@ implies p.used_recently(
                m,
                now,
            ) by {
                assert(ms.contains(m));
                let i = choose|i: int| 0 <= i < ms.len() && ms[i] == m;
                assert(p.used_recently(ms[i], now));
            }
        } else {
            let best = first_new(p, ms, now)->0;
            let i = choose|i: int|
                0 <= i < ms.len() && best == #[trigger] ms[i] && !p.used_recently(best, now)
                    && forall|k: int| 0 <= k < i ==> p.used_recently(#[trigger] ms[k], now);
            assert(ms.contains(best));
            assert forall|m: MaterialView| #[trigger]
                p.materials.contains(m) && m.status == "pending"@ && !p.used_recently(
                    m,
                    now,
                ) implies m.relevance <= best.relevance by {
                assert(ms.contains(m));
                let k = choose|k: int| 0 <= k < ms.len() && ms[k] == m;
                if k < i {
                    assert(p.used_recently(ms[k], now));
                } else if k > i {
                    assert(!before(ms[k], ms[i]));
                }
            }
        }
    }
}

// ---------------------------------------------------------------------------
// Topics that were brought up
// ---------------------------------------------------------------------------

/// A topic that is brought up is recorded with its interest and its keywords, the moment,
/// a third of the full weight, and ten minutes in which an answer counts.
pub proof fn law_brought_up_is_recorded(
    p: PoolView,
    m: MaterialView,
    now: Seconds,
    days: Seq<Seq<char>>,
    today: Seq<char>,
)
    requires
        now.micros + 600_000_000 <= i64::MAX,
    ensures
        p.brought_up(m, now, days, today).used.last() == (UsedView {
            used_at: now,
            weight: Some(1_000_000),
            interest: m.interest,
            keywords: m.keywords,
            response_deadline: Some((Seconds { micros: (now.micros + 600_000_000) as i64 })),
        }),
        p.brought_up(m, now, days, today).materials.len() == 0,
        p.brought_up(m, now, days, today).signals == p.signals,
        p.brought_up(m, now, days, today).last_analysis_at == p.last_analysis_at,
{
}

/// Of the older records those of today and those of the last forty-eight hours are kept, as
/// they are, and no others.
pub proof fn law_records_kept(
    used: Seq<UsedView>,
    days: Seq<Seq<char>>,
    today: Seq<char>,
    now: Seconds,
    n: int,
    r: UsedView,
)
    requires
        0 <= n <= used.len(),
    ensures
        pruned_upto(used, days, today, now, n).contains(r) <==> exists|i: int|
            0 <= i < n && #[trigger] used[i] == r && (days[i] == today || now.micros
                - r.used_at.micros <= TWO_DAYS),
    decreases n,
{
    if n > 0 {
        law_records_kept(used, days, today, now, n - 1, r);
        let rest = pruned_upto(used, days, today, now, n - 1);
        crate::order::lemma_push_contains(rest, used[n - 1], r);
        if pruned_upto(used, days, today, now, n).contains(r) {
            if rest.contains(r) {
                let i = choose|i: int|
                    0 <= i < n - 1 && #[trigger] used[i] == r && (days[i] == today || now.micros
                        - r.used_at.micros <= TWO_DAYS);
                assert(used[i] == r);
            } else {
                assert(used[n - 1] == r);
            }
        }
    }
}

/// A message of the user gives a topic that still waits for an answer its full weight and
/// ends the waiting; it leaves every other record as it is.
pub proof fn law_answer(r: UsedView, now: Seconds)
    ensures
        (r.response_deadline matches Some(d) && now.micros <= d.micros) && (r.weight matches Some(w)
            && w < 3_000_000) ==> record_answered(r, now) == (UsedView {
            weight: Some(3_000_000),
            response_deadline: None,
            ..r
        }),
        r.response_deadline is None || now.micros > (r.response_deadline->0).micros || r.weight is None
            || r.weight->0 >= 3_000_000 ==> record_answered(r, now) == r,
{
}

// ---------------------------------------------------------------------------
// Turns
// ---------------------------------------------------------------------------

/// A turn that is not blank comes to the end, by who spoke: the user or the companion. The
/// turns before it stay in their order, those of the last twelve hours, and of all these the
/// last sixty.
pub proof fn law_turn_is_noted(p: PoolView, actor: Seq<char>, text: Seq<char>, now: Seconds)
    ensures
        trimmed(text).len() == 0 ==> p.turned(actor, text, now) == p,
        trimmed(text).len() > 0 ==> ({
            let q = p.turned(actor, text, now);
            let fresh = p.signals.filter(
                |t: TurnView| now.micros - t.timestamp.micros <= 43_200_000_000,
            );
            let said = TurnView {
                actor: if actor == "user"@ {
                    "user"@
                } else {
                    "ai"@
                },
                text: cleaned(text),
                timestamp: now,
            };
            &&& q.dirty
            &&& q.signals.last() == said
            &&& fresh.len() < 60 ==> q.signals == fresh.push(said)
            &&& fresh.len() >= 60 ==> q.signals == fresh.skip(fresh.len() - 59).push(said)
            &&& q.materials == p.materials
            &&& q.last_analysis_at == p.last_analysis_at
            &&& actor != "user"@ ==> q.used == p.used
            &&& actor == "user"@ ==> q.used.len() == p.used.len() && forall|i: int|
                0 <= i < p.used.len() ==> #[trigger] q.used[i] == record_answered(p.used[i], now)
        }),
{
    crate::topic::law_cleaned(text);
    let said = TurnView {
        actor: if actor == "user"@ {
            "user"@
        } else {
            "ai"@
        },
        text: cleaned(text),
        timestamp: now,
    };
    let keep = |t: TurnView| is_kept(t, now);
    let raw = |t: TurnView| now.micros - t.timestamp.micros <= 43_200_000_000;
    let all = p.signals.push(said);
    assert(keep =~= raw) by {
        assert forall|t: TurnView| #[trigger] keep(t) == raw(t) by {}
    }
    let fresh = p.signals.filter(raw);
    reveal(Seq::filter);
    assert(all.drop_last() =~= p.signals);
    assert(all.filter(keep) == fresh.push(said));
    if trimmed(text).len() > 0 {
        let kept = turns_kept(all, now);
        assert(kept == last_of(fresh.push(said), 60));
        if fresh.len() >= 60 {
            assert(kept =~= fresh.skip(fresh.len() - 59).push(said));
        }
    }
}

/// Texts that say nothing.
pub open spec fn says_nothing(t: Seq<char>) -> bool {
    ||| t == "你好"@
    ||| t == "啊"@
    ||| t == "嗯"@
    ||| t == "哦"@
    ||| t == "好"@
    ||| t == "可以"@
    ||| t == "对"@
    ||| t == "對"@
    ||| t == "行"@
    ||| t == "行吧"@
    ||| t == "哈哈"@
    ||| t == "没事"@
    ||| t == "沒事"@
    ||| t == "不知道"@
}

/// A turn says something if it is none of the texts that say nothing and three of its
/// characters or more are letters, digits or ideographs.
pub proof fn law_meaningful(text: Seq<char>)
    ensures
        says_something(text) <==> !says_nothing(cleaned(text)) && cleaned(text).filter(
            |c: char| '\u{4e00}' <= c && c <= '\u{9fff}' || crate::text::alphanumeric(c),
        ).len() >= 3,
{
    let t = cleaned(text);
    let raw = |c: char| '\u{4e00}' <= c && c <= '\u{9fff}' || crate::text::alphanumeric(c);
    let used = |c: char| carries_meaning(c);
    assert(raw =~= used) by {
        assert forall|c: char| #[trigger] raw(c) == used(c) by {}
    }
    let f = crate::topic::filler_texts();
    if says_nothing(t) {
        assert(f[0] == "你好"@ && f[1] == "啊"@ && f[2] == "嗯"@ && f[3] == "哦"@ && f[4] == "好"@
            && f[5] == "可以"@ && f[6] == "对"@ && f[7] == "對"@ && f[8] == "行"@ && f[9] == "行吧"@
            && f[10] == "哈哈"@ && f[11] == "没事"@ && f[12] == "沒事"@ && f[13] == "不知道"@);
    }
    if f.contains(t) {
        let k = choose|k: int| 0 <= k < f.len() && f[k] == t;
        assert(f.len() == 14);
    }
}

/// The turns that count are those of the user that say something, each once.
pub proof fn law_turns_that_count(turns: Seq<TurnView>, n: int)
    requires
        0 <= n <= turns.len(),
    ensures
        meaningful_upto(turns, n) == turns.take(n).filter(
            |t: TurnView| t.actor == "user"@ && says_something(t.text),
        ).len(),
    decreases n,
{
    reveal(Seq::filter);
    if n > 0 {
        law_turns_that_count(turns, n - 1);
        assert(turns.take(n).drop_last() =~= turns.take(n - 1));
        assert(turns.take(n).last() == turns[n - 1]);
    } else {
        assert(turns.take(0).len() == 0);
    }
}

/// Topics are looked for if and only if none waits, eight turns of the user or more say
/// something, the last turn is a minute ago, and the last look ten minutes.
pub proof fn law_analysis_due(p: PoolView, now: Seconds)
    ensures
        p.analysis_due(now) <==> {
            &&& forall|i: int|
                0 <= i < p.materials.len() ==> (#[trigger] p.materials[i]).status != "pending"@
            &&& p.signals.filter(
                |t: TurnView| t.actor == "user"@ && says_something(t.text),
            ).len() >= 8
            &&& now.micros - p.signals.last().timestamp.micros >= 60_000_000
            &&& now.micros - p.last_analysis_at.micros >= 600_000_000
        },
{
    let n = p.signals.len() as int;
    law_turns_that_count(p.signals, n);
    assert(p.signals.take(n) =~= p.signals);
    if p.ready() {
        p.signals.lemma_filter_len(
            |t: TurnView| t.actor == "user"@ && says_something(t.text),
        );
        let lines = p.signals.map_values(
            |t: TurnView| crate::topic::signal_line(p.signals.last().timestamp, t),
        );
        assert(p.signals.len() >= 8);
        reveal_strlit("- [");
        crate::text_laws::law_joined_holds_parts(lines, "\n"@, 0);
        let whole = crate::topic::signals_shown(p.signals);
        assert(lines[0] == crate::topic::signal_line(p.signals.last().timestamp, p.signals[0]));
        assert(lines[0].len() >= 3);
        let k = choose|k: int| crate::text_laws::stands_at_place(whole, lines[0], k);
        assert(whole.len() >= lines[0].len());
    }
}

/// Each turn is shown by who spoke and what was said, with its age in words before it.
pub proof fn law_turns_shown(turns: Seq<TurnView>, i: int)
    requires
        0 <= i < turns.len(),
    ensures
        crate::text_laws::stands_in(
            crate::topic::signals_shown(turns),
            if turns[i].actor == "user"@ {
                "用户"@
            } else {
                "AI"@
            } + ": "@ + turns[i].text,
        ),
{
    let base = turns.last().timestamp;
    let lines = turns.map_values(|t: TurnView| crate::topic::signal_line(base, t));
    let who = if turns[i].actor == "user"@ {
        "用户"@
    } else {
        "AI"@
    };
    let front = "- ["@ + crate::topic::age_words(
        crate::topic::age_before(base, turns[i]) as int,
    ) + "] "@;
    let said = who + ": "@ + turns[i].text;
    crate::text_laws::law_joined_holds_parts(lines, "\n"@, i);
    assert(lines[i] =~= front + said);
    crate::text_laws::lemma_stands_in_parts(crate::topic::signals_shown(turns), front, said);
}

/// An age is told in seconds below ninety of them, in minutes below an hour, and else in
/// hours, rounded down.
pub proof fn law_age_in_words(seconds: int, rest: int)
    requires
        0 <= seconds,
        0 <= rest < 1_000_000,
    ensures
        ({
            let w = crate::topic::age_words(seconds * 1_000_000 + rest);
            &&& seconds < 90 ==> w == crate::text::decimal(seconds) + "s前"@
            &&& 90 <= seconds < 3600 ==> w == crate::text::decimal(seconds / 60) + "min前"@
            &&& 3600 <= seconds ==> w == crate::text::decimal(seconds / 3600) + "h前"@
        }),
        crate::topic::age_words(-1 - rest) == crate::topic::age_words(0),
{
    let n = seconds * 1_000_000 + rest;
    assert(n / 1_000_000 == seconds);
    assert(n / 60_000_000 == seconds / 60);
    assert(n / 3_600_000_000 == seconds / 3600);
}

// ---------------------------------------------------------------------------
// Topics out of an answer
// ---------------------------------------------------------------------------

/// An item of an answer is a topic if its interest has four characters or more, its
/// relevance is seventy or more and its risk sixty-five or less; it then waits, with that
/// interest. A relevance that is missing counts as seventy, a risk as twenty; one below zero
/// counts as zero and one above a hundred as a hundred.
pub proof fn law_topic_in_answer(item: JsonView, now: Seconds)
    ensures
        ({
            let interest = trimmed(item.text_or("interest"@, ""@));
            let relevant = item.integer_at("relevance"@) is None || item.integer_at(
                "relevance"@,
            )->0 >= 70;
            let safe = item.integer_at("risk"@) is None || item.integer_at("risk"@)->0 <= 65;
            &&& candidate_in(item, now) is Some <==> interest.len() >= 4 && relevant && safe
            &&& candidate_in(item, now) matches Some(m) ==> {
                &&& m.interest == interest
                &&& m.status == "pending"@
                &&& m.created_at == now
                &&& m.keywords == keywords_in(item)
                &&& 70 <= m.relevance <= 100
                &&& 0 <= m.risk <= 65
                &&& item.integer_at("relevance"@) matches Some(n) ==> n == m.relevance || n > 100
                    && m.relevance == 100
                &&& item.integer_at("risk"@) matches Some(n) ==> n == m.risk || n < 0 && m.risk == 0
                &&& item.integer_at("relevance"@) is None ==> m.relevance == 70
                &&& item.integer_at("risk"@) is None ==> m.risk == 20
            }
        }),
{
}

proof fn lemma_candidates(items: Seq<JsonView>, now: Seconds, m: MaterialView)
    ensures
        candidates_in(items, now).contains(m) <==> exists|k: int|
            0 <= k < items.len() && candidate_in(#[trigger] items[k], now) == Some(m),
    decreases items.len(),
{
    if items.len() > 0 {
        let rest = items.drop_last();
        let v = items.last();
        lemma_candidates(rest, now, m);
        if candidate_in(v, now) is Some {
            crate::order::lemma_push_contains(candidates_in(rest, now), candidate_in(v, now)->0, m);
        }
        if candidates_in(items, now).contains(m) {
            if candidates_in(rest, now).contains(m) {
                let k = choose|k: int|
                    0 <= k < rest.len() && candidate_in(#[trigger] rest[k], now) == Some(m);
                assert(candidate_in(items[k], now) == Some(m));
            } else {
                assert(candidate_in(items[items.len() - 1], now) == Some(m));
            }
        }
        if exists|k: int| 0 <= k < items.len() && candidate_in(#[trigger] items[k], now) == Some(m) {
            let k = choose|k: int|
                0 <= k < items.len() && candidate_in(#[trigger] items[k], now) == Some(m);
            if k < rest.len() {
                assert(candidate_in(rest[k], now) == Some(m));
            }
        }
    }
}

proof fn lemma_first_candidate(items: Seq<JsonView>, now: Seconds, k: int)
    requires
        0 <= k < items.len(),
        candidate_in(items[k], now) is Some,
        forall|i: int| 0 <= i < k ==> candidate_in(#[trigger] items[i], now) is None,
    ensures
        candidates_in(items, now).len() > 0,
        candidates_in(items, now)[0] == candidate_in(items[k], now)->0,
    decreases items.len(),
{
    let rest = items.drop_last();
    if k < rest.len() {
        assert forall|i: int| 0 <= i < k implies candidate_in(#[trigger] rest[i], now) is None by {
            assert(candidate_in(items[i], now) is None);
        }
        lemma_first_candidate(rest, now, k);
    } else {
        assert forall|i: int| 0 <= i < rest.len() implies candidate_in(
            #[trigger] rest[i],
            now,
        ) is None by {
            assert(candidate_in(items[i], now) is None);
        }
        lemma_no_candidates(rest, now);
    }
}

proof fn lemma_no_candidates(items: Seq<JsonView>, now: Seconds)
    requires
        forall|i: int| 0 <= i < items.len() ==> candidate_in(#[trigger] items[i], now) is None,
    ensures
        candidates_in(items, now).len() == 0,
    decreases items.len(),
{
    if items.len() > 0 {
        let rest = items.drop_last();
        assert forall|i: int| 0 <= i < rest.len() implies candidate_in(
            #[trigger] rest[i],
            now,
        ) is None by {
            assert(candidate_in(items[i], now) is None);
        }
        assert(candidate_in(items[items.len() - 1], now) is None);
        lemma_no_candidates(rest, now);
    }
}

/// Of an answer the first four items are read, and of the topics in them the first two are
/// taken: all of them where there are no more, and the first one in any case.
pub proof fn law_topics_taken(items: Seq<JsonView>, now: Seconds)
    ensures
        candidates_taken(items, now).len() <= 2,
        forall|i: int|
            0 <= i < candidates_taken(items, now).len() ==> exists|k: int|
                0 <= k < items.len() && k < 4 && candidate_in(#[trigger] items[k], now) == Some(
                    #[trigger] candidates_taken(items, now)[i],
                ),
        candidates_taken(items, now).len() < 2 ==> forall|k: int|
            0 <= k < items.len() && k < 4 && candidate_in(#[trigger] items[k], now) is Some
                ==> candidates_taken(items, now).contains(candidate_in(items[k], now)->0),
        forall|k: int|
            0 <= k < items.len() && k < 4 && candidate_in(#[trigger] items[k], now) is Some && (
            forall|i: int| 0 <= i < k ==> candidate_in(#[trigger] items[i], now) is None)
                ==> candidates_taken(items, now).len() > 0 && candidates_taken(items, now)[0]
                == candidate_in(items[k], now)->0,
{
    let few = at_most(items, 4);
    let all = candidates_in(few, now);
    let r = candidates_taken(items, now);
    assert forall|i: int| 0 <= i < r.len() implies exists|k: int|
        0 <= k < items.len() && k < 4 && candidate_in(#[trigger] items[k], now) == Some(
            #[trigger] r[i],
        ) by {
        assert(all.contains(all[i]));
        lemma_candidates(few, now, all[i]);
        let k = choose|k: int|
            0 <= k < few.len() && candidate_in(#[trigger] few[k], now) == Some(all[i]);
        assert(candidate_in(items[k], now) == Some(r[i]));
    }
    if r.len() < 2 {
        assert forall|k: int|
            0 <= k < items.len() && k < 4 && candidate_in(
                #[trigger] items[k],
                now,
            ) is Some implies r.contains(candidate_in(items[k], now)->0) by {
            assert(few[k] == items[k]);
            lemma_candidates(few, now, candidate_in(items[k], now)->0);
            assert(r == all);
        }
    }
    assert forall|k: int|
        0 <= k < items.len() && k < 4 && candidate_in(#[trigger] items[k], now) is Some && (forall|
            i: int,
        |
            0 <= i < k ==> candidate_in(#[trigger] items[i], now) is None) implies r.len() > 0
        && r[0] == candidate_in(items[k], now)->0 by {
        assert(few[k] == items[k]);
        assert forall|i: int| 0 <= i < k implies candidate_in(#[trigger] few[i], now) is None by {
            assert(few[i] == items[i]);
        }
        lemma_first_candidate(few, now, k);
    }
}

/// What is kept of the topics that were found: they are relevant and safe, none was brought
/// up lately, the most relevant comes first, and there are two at most. One that is missing
/// is not relevant enough or not safe, or was brought up lately, or there were two that are
/// no less relevant.
pub proof fn law_topics_kept(p: PoolView, found: Seq<MaterialView>, now: Seconds, m: MaterialView)
    requires
        found.contains(m),
        m.relevance >= 70,
        m.risk <= 65,
        !p.used_recently(m, now),
    ensures
        accepted(p, found, now).contains(m) || exists|a: MaterialView, b: MaterialView| #[trigger]
            found.contains(a) && #[trigger] found.contains(b) && a.relevance >= m.relevance
                && b.relevance >= m.relevance && a.relevance >= 70 && b.relevance >= 70 && a.risk
                <= 65 && b.risk <= 65,
{
    let pick = |m: MaterialView| crate::topic::is_worthwhile(m);
    let before = |a: MaterialView, b: MaterialView| a.relevance > b.relevance;
    let picked = found.filter(pick);
    let sorted = sorted_by(picked, before);
    let top = at_most(sorted, 2);
    let fresh = |m: MaterialView| !p.used_recently(m, now);
    let i = choose|i: int| 0 <= i < found.len() && found[i] == m;
    found.lemma_filter_contains(pick, i);
    crate::order::lemma_sort_contains(picked, before, m);
    crate::order::lemma_sort_in_order(picked, before);
    let k = choose|k: int| 0 <= k < sorted.len() && sorted[k] == m;
    if k < top.len() {
        top.lemma_filter_contains(fresh, k);
        assert(top[k] == m);
    } else {
        let (a, b) = (sorted[0], sorted[1]);
        assert(sorted.contains(a) && sorted.contains(b));
        crate::order::lemma_sort_contains(picked, before, a);
        crate::order::lemma_sort_contains(picked, before, b);
        crate::memory::lemma_filter_contains(found, pick, a);
        crate::memory::lemma_filter_contains(found, pick, b);
        assert(!before(sorted[k], sorted[0]));
        assert(!before(sorted[k], sorted[1]));
        assert(found.contains(a) && found.contains(b));
    }
}

/// Nothing else is kept, and what is kept is in order.
pub proof fn law_topics_kept_are_good(p: PoolView, found: Seq<MaterialView>, now: Seconds)
    ensures
        accepted(p, found, now).len() <= 2,
        forall|i: int|
            0 <= i < accepted(p, found, now).len() ==> {
                let m = #[trigger] accepted(p, found, now)[i];
                found.contains(m) && m.relevance >= 70 && m.risk <= 65 && !p.used_recently(m, now)
            },
        accepted(p, found, now).len() == 2 ==> accepted(p, found, now)[0].relevance >= accepted(
            p,
            found,
            now,
        )[1].relevance,
        p.analysed(found, now).materials == accepted(p, found, now),
        p.analysed(found, now).last_analysis_at == now,
        !p.analysed(found, now).dirty,
        p.analysed(found, now).used == p.used,
        p.analysed(found, now).signals == p.signals,
{
    let pick = |m: MaterialView| crate::topic::is_worthwhile(m);
    let before = |a: MaterialView, b: MaterialView| a.relevance > b.relevance;
    let picked = found.filter(pick);
    let sorted = sorted_by(picked, before);
    let top = at_most(sorted, 2);
    let fresh = |m: MaterialView| !p.used_recently(m, now);
    let r = accepted(p, found, now);
    top.lemma_filter_len(fresh);
    crate::order::lemma_sort_in_order(picked, before);
    assert forall|i: int| 0 <= i < r.len() implies {
        let m = #[trigger] r[i];
        found.contains(m) && m.relevance >= 70 && m.risk <= 65 && !p.used_recently(m, now)
    } by {
        let m = r[i];
        assert(r.contains(m));
        crate::memory::lemma_filter_contains(top, fresh, m);
        let k = choose|k: int| 0 <= k < top.len() && top[k] == m;
        assert(sorted[k] == m);
        assert(sorted.contains(m));
        crate::order::lemma_sort_contains(picked, before, m);
        crate::memory::lemma_filter_contains(found, pick, m);
    }
    if r.len() == 2 {
        reveal(Seq::filter);
        reveal_with_fuel(Seq::filter, 3);
        assert(top.len() == 2);
        lemma_filter_all(top, fresh);
        assert(!before(sorted[1], sorted[0]));
    }
}

proof fn lemma_filter_all<T>(s: Seq<T>, pick: spec_fn(T) -> bool)
    requires
        s.filter(pick).len() == s.len(),
    ensures
        s.filter(pick) == s,
    decreases s.len(),
{
    reveal(Seq::filter);
    if s.len() > 0 {
        let rest = s.drop_last();
        rest.lemma_filter_len(pick);
        lemma_filter_all(rest, pick);
        assert(rest.push(s.last()) =~= s);
    } else {
        assert(s.filter(pick) =~= s);
    }
}

/// The keywords of a topic are the texts under `keywords`, without white space round them,
/// each once and none of them blank, the first six.
pub proof fn law_keywords(item: JsonView, items: Seq<JsonView>, k: Seq<char>)
    requires
        item.items_at("keywords"@) == Some(items),
    ensures
        keywords_in(item).len() <= 6,
        keywords_in(item).no_duplicates(),
        keywords_in(item).contains(k) ==> k.len() > 0 && exists|i: int|
            0 <= i < items.len() && (#[trigger] items[i]).text() is Some && trimmed(
                items[i].text()->0,
            ) == k,
        keywords_in(item).len() < 6 ==> forall|i: int|
            0 <= i < items.len() && (#[trigger] items[i]).text() is Some && trimmed(
                items[i].text()->0,
            ).len() > 0 ==> keywords_in(item).contains(trimmed(items[i].text()->0)),
{
    let texts = crate::open_threads::texts_among(items);
    let all = crate::open_threads::distinct_threads(texts);
    let r = keywords_in(item);
    lemma_distinct(texts);
    if r.contains(k) {
        let m = choose|m: int| 0 <= m < r.len() && r[m] == k;
        assert(all[m] == k);
        assert(all.contains(k));
        crate::reflection_laws::law_threads_distinct(texts, k);
        let j = choose|j: int| 0 <= j < texts.len() && trimmed(#[trigger] texts[j]) == k;
        lemma_texts(items, texts[j]);
        assert(texts.contains(texts[j]));
        let i = choose|i: int|
            0 <= i < items.len() && (#[trigger] items[i]).text() == Some(texts[j]);
        assert(trimmed(items[i].text()->0) == k);
    }
    if r.len() < 6 {
        assert(r == all);
        assert forall|i: int|
            0 <= i < items.len() && (#[trigger] items[i]).text() is Some && trimmed(
                items[i].text()->0,
            ).len() > 0 implies r.contains(trimmed(items[i].text()->0)) by {
            let t = items[i].text()->0;
            lemma_texts(items, t);
            let j = choose|j: int| 0 <= j < texts.len() && texts[j] == t;
            assert(trimmed(texts[j]) == trimmed(t));
            crate::reflection_laws::law_threads_distinct(texts, trimmed(t));
        }
    }
}

proof fn lemma_distinct(threads: Seq<Seq<char>>)
    ensures
        crate::open_threads::distinct_threads(threads).no_duplicates(),
    decreases threads.len(),
{
    if threads.len() > 0 {
        let rest = threads.drop_last();
        lemma_distinct(rest);
        let kept = crate::open_threads::distinct_threads(rest);
        let all = crate::open_threads::distinct_threads(threads);
        assert forall|i: int, j: int| 0 <= i < all.len() && 0 <= j < all.len() && i != j implies all[i]
            != all[j] by {
            if i < kept.len() && j < kept.len() {
                assert(kept[i] != kept[j]);
            } else if i < kept.len() {
                assert(kept.contains(kept[i]));
            } else {
                assert(kept.contains(kept[j]));
            }
        }
    }
}

proof fn lemma_texts(items: Seq<JsonView>, t: Seq<char>)
    ensures
        crate::open_threads::texts_among(items).contains(t) <==> exists|i: int|
            0 <= i < items.len() && (#[trigger] items[i]).text() == Some(t),
    decreases items.len(),
{
    if items.len() > 0 {
        let rest = items.drop_last();
        let v = items.last();
        let before = crate::open_threads::texts_among(rest);
        lemma_texts(rest, t);
        if v.text() is Some {
            crate::order::lemma_push_contains(before, v.text()->0, t);
        }
        if crate::open_threads::texts_among(items).contains(t) {
            if before.contains(t) {
                let i = choose|i: int| 0 <= i < rest.len() && (#[trigger] rest[i]).text() == Some(t);
                assert(items[i].text() == Some(t));
            } else {
                assert(items[items.len() - 1].text() == Some(t));
            }
        }
        if exists|i: int| 0 <= i < items.len() && (#[trigger] items[i]).text() == Some(t) {
            let i = choose|i: int| 0 <= i < items.len() && (#[trigger] items[i]).text() == Some(t);
            if i < rest.len() {
                assert(rest[i].text() == Some(t));
            }
        }
    }
}

/// Where none waits and there are too few turns, the turns have been looked at; else nothing
/// changes. A pool that starts anew holds nothing.
pub proof fn law_considered(p: PoolView, dir: Seq<char>)
    ensures
        !p.has_pending() && !p.ready() ==> p.considered() == (PoolView { dirty: false, ..p }),
        p.has_pending() || p.ready() ==> p.considered() == p,
        p.has_pending() <==> exists|i: int|
            0 <= i < p.materials.len() && (#[trigger] p.materials[i]).status == "pending"@,
        p.ready() <==> meaningful_upto(p.signals, p.signals.len() as int) >= 8,
        PoolView::blank(dir).signals.len() == 0 && PoolView::blank(dir).materials.len() == 0
            && PoolView::blank(dir).used.len() == 0 && !PoolView::blank(dir).dirty,
{
}

/// The question for an opening begins with the interest.
pub proof fn law_opening_names_interest(interest: Seq<char>, memory: Seq<char>, activity: Seq<char>)
    ensures
        ("最近关注："@ + interest).is_prefix_of(
            crate::topic::opening_question(interest, memory, activity),
        ),
{
    let template = r#"最近关注：{INTEREST}
请只生成一句自然开场，像随口想起来，不要说"根据你的近期兴趣"，不要像问卷。"#@;
    reveal_strlit(r#"最近关注：{INTEREST}
请只生成一句自然开场，像随口想起来，不要说"根据你的近期兴趣"，不要像问卷。"#);
    reveal_strlit("最近关注：");
    reveal_strlit("{INTEREST}");
    let front = "最近关注："@;
    let mark = "{INTEREST}"@;
    let n = front.len() + mark.len();
    let back = template.skip(n as int);
    assert(template.len() > n);
    assert(template =~= front + mark + back);
    assert forall|k: int| 0 <= k < front.len() implies !#[trigger] crate::text_laws::stands_at_place(
        front + mark + back,
        mark,
        k,
    ) by {
        if crate::text_laws::stands_at_place(front + mark + back, mark, k) {
            assert(template.subrange(k, k + mark.len())[0] == mark[0]);
            assert(template[k] == front[k]);
        }
    }
    crate::text_laws::law_replaced_first(front, mark, back, interest);
    let r = crate::topic::opening_question(interest, memory, activity);
    let start = front + interest;
    assert(start =~= r.subrange(0, start.len() as int));
}

/// A topic is named by its second and its interest; a pool that starts anew has never been
/// looked through.
pub proof fn law_topic_names(interest: Seq<char>, seconds: int, rest: int, dir: Seq<char>)
    requires
        0 <= seconds,
        0 <= rest < 1_000_000,
        seconds * 1_000_000 + rest <= i64::MAX,
    ensures
        crate::topic::hook_id(
            interest,
            (Seconds { micros: (seconds * 1_000_000 + rest) as i64 }),
        ) == "topic_"@ + crate::text::decimal(seconds) + "_"@ + crate::text::digits(
            crate::memory::text_hash(interest) as nat,
            16,
        ),
        PoolView::blank(dir).last_analysis_at.micros == 0,
        PoolView::blank(dir).dir == dir,
{
    assert((seconds * 1_000_000 + rest) / 1_000_000 == seconds);
}

} // verus!
