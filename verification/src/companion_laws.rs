//! What the companion as a whole promises: what it asks of the models, what it shows of past
//! tasks, and when it looks anew.

use crate::chat::request;
use crate::chat_laws::{law_briefed, law_field, law_message, law_request};
use crate::clock::{Seconds, Wall};
use crate::companion::{
    chat_request, fact_shown, is_entity, is_user, last_tasks, outcome_of, store_shown, task_line,
    tasks_back, tasks_shown, tells_facts, time_of_day, with_briefing, with_memory, with_picture,
    with_tasks, GuessView, TaskView,
};
use crate::config::{chat_model_of, memory_model_of, vision_model_of};
use crate::json::{json_read, JsonView};
use crate::memory::{last_of, FactView, StoreView};
use crate::memory_compress::summary_request;
use crate::memory_prompts::{ago, label_of, rounded};
use crate::open_threads::threads_request;
use crate::proactive::{remark_question, remark_request, threads_block};
use crate::text::{byte_size, decimal, head, joined, trimmed};
use crate::text_laws::{
    law_joined_holds_parts, lemma_stands_in_part, lemma_stands_in_sum, stands_in,
};
use crate::topic::{candidates_request, opening_question};
use crate::vision::{guess_request, shrunk};
use vstd::prelude::*;

verus! {

// ---------------------------------------------------------------------------
// Talk with the user
// ---------------------------------------------------------------------------

/// What is remembered comes behind the briefing, and is left out where there is nothing; the
/// briefing comes before the messages, and is left out where it is blank.
pub proof fn law_briefing(system: Seq<char>, memory: Seq<char>, messages: Seq<JsonView>)
    ensures
        memory.len() == 0 ==> with_memory(system, memory) == system,
        memory.len() > 0 ==> with_memory(system, memory) == system + "\n\n"@ + memory,
        trimmed(system).len() == 0 ==> with_briefing(system, messages) == messages,
        trimmed(system).len() > 0 ==> with_briefing(system, messages).len() == messages.len() + 1
            && with_briefing(system, messages)[0].text_at("role"@) == Some("system"@)
            && with_briefing(system, messages)[0].text_at("content"@) == Some(system)
            && with_briefing(system, messages).drop_first() == messages,
{
    law_message("system"@, JsonView::Text(system));
    if trimmed(system).len() > 0 {
        assert(with_briefing(system, messages).drop_first() =~= messages);
    }
}

/// A picture goes to the last message of the user, together with the words of it; all other
/// messages stay as they are.
pub proof fn law_picture_goes_to_user(messages: Seq<JsonView>, b64: Seq<char>, j: int)
    requires
        0 <= j < messages.len(),
        messages[j].text_at("role"@) == Some("user"@),
        forall|k: int|
            j < k < messages.len() ==> (#[trigger] messages[k]).text_at("role"@) != Some("user"@),
    ensures
        with_picture(messages, b64).len() == messages.len(),
        forall|k: int|
            0 <= k < messages.len() && k != j ==> #[trigger] with_picture(messages, b64)[k]
                == messages[k],
        with_picture(messages, b64)[j].text_at("role"@) == Some("user"@),
        with_picture(messages, b64)[j].get("content"@) == Some(
            crate::chat::picture_and_text(b64, messages[j].text_or("content"@, ""@)),
        ),
    decreases messages.len(),
{
    let last = messages.last();
    let rest = messages.drop_last();
    if j == messages.len() - 1 {
        assert(is_user(last));
        law_message(
            "user"@,
            crate::chat::picture_and_text(b64, last.text_or("content"@, ""@)),
        );
    } else {
        assert(messages[messages.len() - 1].text_at("role"@) != Some("user"@));
        assert(rest[j] == messages[j]);
        assert forall|k: int| j < k < rest.len() implies (#[trigger] rest[k]).text_at("role"@)
            != Some("user"@) by {
            assert(messages[k].text_at("role"@) != Some("user"@));
        }
        law_picture_goes_to_user(rest, b64, j);
        let r = with_picture(messages, b64);
        assert forall|k: int| 0 <= k < messages.len() && k != j implies #[trigger] r[k]
            == messages[k] by {
            if k < rest.len() {
                assert(r[k] == with_picture(rest, b64)[k]);
                assert(rest[k] == messages[k]);
            }
        }
    }
}

/// A request for a reply goes to the model for pictures if there is a picture of use, and to
/// the model for talk otherwise, with the same messages but for the picture.
pub proof fn law_chat_request(
    config: Option<Seq<char>>,
    memory: Seq<char>,
    messages: Seq<JsonView>,
    system: Seq<char>,
    json_mode: bool,
    file: (Seq<u8>, Seq<char>),
)
    ensures
        ({
            let all = with_briefing(with_memory(system, memory), messages);
            let plain = chat_request(config, memory, messages, system, json_mode, None);
            let r = chat_request(config, memory, messages, system, json_mode, Some(file));
            &&& plain.text_at("model"@) == Some(chat_model_of(config))
            &&& plain.items_at("messages"@) == Some(all)
            &&& plain.get("response_format"@) is Some <==> json_mode
            &&& shrunk(file.0, file.1) is Err ==> r == plain
            &&& shrunk(file.0, file.1) matches Ok(b64) ==> r.text_at("model"@) == Some(
                vision_model_of(config),
            ) && r.items_at("messages"@) == Some(with_picture(all, b64))
        }),
{
    let all = with_briefing(with_memory(system, memory), messages);
    law_request(chat_model_of(config), all, None, json_mode);
    match shrunk(file.0, file.1) {
        Ok(b64) => {
            law_request(vision_model_of(config), with_picture(all, b64), None, json_mode);
        },
        Err(_) => {},
    }
}

// ---------------------------------------------------------------------------
// Questions to the models
// ---------------------------------------------------------------------------

/// A remark is asked of the model for pictures where there is a picture of the screen, and
/// of the model for talk where there is none; the briefing is the brief one where the
/// companion is to be brief, and the full one otherwise; the question is the one given.
pub proof fn law_remark_request(
    config: Option<Seq<char>>,
    question: Seq<char>,
    screen: Option<Seq<char>>,
    restrained: bool,
)
    ensures
        ({
            let r = remark_request(config, question, screen, restrained);
            let ms = r.items_at("messages"@)->0;
            &&& r.items_at("messages"@) is Some && ms.len() == 2
            &&& screen is Some ==> r.text_at("model"@) == Some(vision_model_of(config))
            &&& screen is None ==> r.text_at("model"@) == Some(chat_model_of(config))
            &&& restrained ==> ms[0].text_at("content"@) == Some(
                crate::proactive::RESTRAINED_BRIEFING@,
            )
            &&& !restrained ==> ms[0].text_at("content"@) == Some(crate::proactive::FULL_BRIEFING@)
            &&& screen is None ==> ms[1].text_at("content"@) == Some(question)
            &&& screen matches Some(b64) ==> ms[1].get("content"@) == Some(
                crate::chat::picture_and_text(b64, question),
            )
            &&& r.integer_at("max_tokens"@) == Some(100i64)
            &&& r.get("response_format"@) is None
        }),
{
    let briefing = if restrained {
        crate::proactive::RESTRAINED_BRIEFING@
    } else {
        crate::proactive::FULL_BRIEFING@
    };
    let user = match screen {
        Some(b64) => crate::chat::picture_and_text(b64, question),
        None => JsonView::Text(question),
    };
    let model = match screen {
        Some(_) => vision_model_of(config),
        None => chat_model_of(config),
    };
    law_briefed(briefing, user);
    law_request(model, crate::chat::briefed(briefing, user), Some(100), false);
}

/// The question for a remark holds the reason, what is remembered, each open thread, and
/// what the user is doing.
pub proof fn law_remark_question(
    reason: Seq<char>,
    memory: Seq<char>,
    threads: Seq<Seq<char>>,
    activity: Seq<char>,
    i: int,
)
    ensures
        ({
            let q = remark_question(reason, memory, threads, activity);
            &&& reason.is_prefix_of(q)
            &&& stands_in(q, "======以下是你的记忆======\n"@ + memory)
            &&& stands_in(q, "======以下是主人当前状态======\n"@ + activity)
            &&& 0 <= i < threads.len() ==> stands_in(q, "- "@ + threads[i])
        }),
{
    let q = remark_question(reason, memory, threads, activity);
    let block = threads_block(threads);
    reveal_strlit("\n\n======以下是你的记忆======\n");
    reveal_strlit("\n\n");
    reveal_strlit("======以下是你的记忆======\n");
    reveal_strlit("\n\n======以下是主人当前状态======\n");
    reveal_strlit("======以下是主人当前状态======\n");
    assert("\n\n======以下是你的记忆======\n"@ =~= "\n\n"@ + "======以下是你的记忆======\n"@);
    assert("\n\n======以下是主人当前状态======\n"@ =~= "\n\n"@ + "======以下是主人当前状态======\n"@);
    let a = "======以下是你的记忆======\n"@ + memory;
    let b = "======以下是主人当前状态======\n"@ + activity;
    let m = "\n======以上是你的记忆======\n"@;
    let e = "\n======以上是主人当前状态======\n\n"@ + "请直接输出你想说的话（40字以内），或 [PASS]"@;
    assert(q =~= (reason + "\n\n"@) + a + (m + block + "\n\n"@ + b + e));
    assert(q =~= (reason + "\n\n"@ + a + m + block + "\n\n"@) + b + e);
    assert(q =~= (reason + "\n\n"@ + a + m) + block + ("\n\n"@ + b + e));
    lemma_stands_in_sum(reason + "\n\n"@, a, m + block + "\n\n"@ + b + e);
    lemma_stands_in_sum(reason + "\n\n"@ + a + m + block + "\n\n"@, b, e);
    assert(reason =~= q.subrange(0, reason.len() as int));
    if 0 <= i < threads.len() {
        let lines = crate::proactive::thread_lines(threads);
        law_joined_holds_parts(lines, "\n"@, i);
        let body = joined(lines, "\n"@);
        lemma_stands_in_part(
            "\n======以下是未收尾的话题======\n"@,
            body,
            "\n======以上是未收尾的话题======\n如果上面有值得接着聊的，优先自然地续上它（不用生硬地提'上次你说'）；没有就别硬提。"@,
            lines[i],
        );
        lemma_stands_in_part(reason + "\n\n"@ + a + m, block, "\n\n"@ + b + e, lines[i]);
    }
}

/// The question for an opening holds what is remembered and what the user is doing.
pub proof fn law_opening_question(interest: Seq<char>, memory: Seq<char>, activity: Seq<char>)
    ensures
        stands_in(opening_question(interest, memory, activity), memory),
        stands_in(opening_question(interest, memory, activity), activity),
{
    let q = opening_question(interest, memory, activity);
    let a = crate::text::replaced(crate::topic::TOPIC_OPENING_PROMPT@, "{INTEREST}"@, interest)
        + "\n\n======以下是你的记忆======\n"@;
    let m = "\n======以上是你的记忆======\n\n======以下是主人当前状态======\n"@;
    let e = "\n======以上是主人当前状态======\n\n请直接输出你想说的话（40字以内），或 [PASS]"@;
    assert(q =~= a + memory + (m + activity + e));
    assert(q =~= (a + memory + m) + activity + e);
    lemma_stands_in_sum(a, memory, m + activity + e);
    lemma_stands_in_sum(a + memory + m, activity, e);
}

/// Topics are asked of the model for the memory, as a document; open threads and descriptions
/// of the activity of the model for talk, as a document; and summaries of the model for talk,
/// as text.
pub proof fn law_models_by_task(
    config: Option<Seq<char>>,
    text: Seq<char>,
    other: Seq<char>,
    third: Seq<char>,
)
    ensures
        candidates_request(config, text).text_at("model"@) == Some(memory_model_of(config)),
        candidates_request(config, text).get("response_format"@) is Some,
        threads_request(config, text).text_at("model"@) == Some(chat_model_of(config)),
        threads_request(config, text).get("response_format"@) is Some,
        guess_request(config, text, other, third).text_at("model"@) == Some(chat_model_of(config)),
        guess_request(config, text, other, third).get("response_format"@) is Some,
        summary_request(config, text, other).text_at("model"@) == Some(chat_model_of(config)),
        summary_request(config, text, other).get("response_format"@) is None,
{
    law_request(
        memory_model_of(config),
        candidates_request(config, text).items_at("messages"@)->0,
        Some(512),
        true,
    );
    let a = crate::chat::briefed(
        "你是话题筛选助手，只输出 JSON。"@,
        JsonView::Text(
            crate::text::replaced(
                crate::topic::TOPIC_CANDIDATE_PROMPT@,
                "{GLOBAL_SIGNALS}"@,
                text,
            ),
        ),
    );
    law_request(memory_model_of(config), a, Some(512), true);
    let b = crate::chat::briefed(
        "你是对话回顾助手，只输出 JSON。"@,
        JsonView::Text(
            crate::text::replaced(
                crate::memory_prompts::OPEN_THREADS_PROMPT@,
                "{CONVERSATION}"@,
                text,
            ),
        ),
    );
    law_request(chat_model_of(config), b, Some(512), true);
    let c = crate::chat::briefed(
        "你是活动分析助手，只输出 JSON。"@,
        JsonView::Text(crate::vision::guess_prompt(text, other, third)),
    );
    law_request(chat_model_of(config), c, Some(300), true);
    let d = crate::chat::briefed(
        "你是对话归档助手，只输出备忘录文本。"@,
        JsonView::Text(crate::text::replaced(text, "{CONVERSATION}"@, other)),
    );
    law_request(chat_model_of(config), d, Some(512), false);
}

// ---------------------------------------------------------------------------
// Labels and ages
// ---------------------------------------------------------------------------

/// Whom a memory is about, in words.
pub proof fn law_labels(entity: Seq<char>)
    ensures
        entity == "master"@ ==> label_of(entity) == "关于主人"@,
        entity == "neko"@ ==> label_of(entity) == "关于优香"@,
        entity == "relationship"@ ==> label_of(entity) == "关系"@,
        entity != "master"@ && entity != "neko"@ && entity != "relationship"@ ==> label_of(entity)
            == "记忆"@,
{
    reveal_strlit("master");
    reveal_strlit("neko");
    reveal_strlit("relationship");
    assert("master"@.len() == 6 && "neko"@.len() == 4 && "relationship"@.len() == 12);
}

proof fn lemma_rounded(days: int, d: int)
    requires
        0 < d,
    ensures
        -d <= 2 * (days - d * rounded(days * 1000, d * 1000)) < d,
{
    let n = 2 * (days * 1000) + d * 1000;
    let q = n / (2 * (d * 1000));
    assert(q * (2000 * d) <= n < (q + 1) * (2000 * d)) by (nonlinear_arith)
        requires
            q == n / (2 * (d * 1000)),
            0 < d,
    ;
    assert(-d <= 2 * (days - d * q) < d) by (nonlinear_arith)
        requires
            q * (2000 * d) <= 2 * (days * 1000) + d * 1000 < (q + 1) * (2000 * d),
            0 < d,
    ;
}

/// How long ago something was, for a number of whole days: today; the days below a week; the
/// weeks below thirty days; the months below a year; and else the years. Each is rounded to
/// the nearest.
pub proof fn law_ago(days: int)
    requires
        0 <= days,
    ensures
        days == 0 ==> ago(days * 1000) == "今天"@,
        1 <= days < 7 ==> ago(days * 1000) == decimal(days) + " 天前"@,
        7 <= days < 30 ==> exists|n: int|
            ago(days * 1000) == #[trigger] decimal(n) + " 周前"@ && -7 <= 2 * (days - 7 * n) < 7,
        30 <= days < 365 ==> exists|n: int|
            ago(days * 1000) == #[trigger] decimal(n) + " 个月前"@ && -30 <= 2 * (days - 30 * n)
                < 30,
        365 <= days ==> exists|n: int|
            ago(days * 1000) == #[trigger] decimal(n) + " 年前"@ && -365 <= 2 * (days - 365 * n)
                < 365,
{
    let t = days * 1000;
    let w = rounded(t, 7000);
    let m = rounded(t, 30_000);
    let y = rounded(t, 365_000);
    lemma_rounded(days, 1);
    lemma_rounded(days, 7);
    lemma_rounded(days, 30);
    lemma_rounded(days, 365);
    if 7 <= days < 30 {
        assert(ago(t) == decimal(w) + " 周前"@);
    }
    if 30 <= days < 365 {
        assert(ago(t) == decimal(m) + " 个月前"@);
    }
    if 365 <= days {
        assert(ago(t) == decimal(y) + " 年前"@);
    }
}

// ---------------------------------------------------------------------------
// Tasks
// ---------------------------------------------------------------------------

/// Tasks are read from the last row back; a row that is no document is passed over.
pub proof fn law_tasks_read(rows: Seq<Seq<char>>, row: Seq<char>)
    ensures
        tasks_back(Seq::empty()) == Seq::<TaskView>::empty(),
        json_read(row) is Err ==> tasks_back(rows.push(row)) == tasks_back(rows),
        json_read(row) matches Ok(v) ==> tasks_back(rows.push(row)) == seq![
            crate::companion::task_in(v),
        ] + tasks_back(rows),
{
    assert(rows.push(row).drop_last() =~= rows);
}

/// A row tells the task, whether it went well, and what came of it; what is missing is empty,
/// and did not go well.
pub proof fn law_task_read(v: JsonView)
    ensures
        ({
            let t = crate::companion::task_in(v);
            &&& v.text_at("task"@) matches Some(s) ==> t.task == s
            &&& v.text_at("result"@) matches Some(s) ==> t.result == s
            &&& v.text_at("task"@) is None ==> t.task.len() == 0
            &&& v.text_at("result"@) is None ==> t.result.len() == 0
            &&& t.ok <==> v.get("ok"@) == Some(JsonView::Bool(true))
        }),
{
    reveal_strlit("");
}

/// The last tasks are shown, as many as asked for and one at least.
pub proof fn law_last_tasks(content: Seq<char>, max: int)
    ensures
        last_tasks(content, max).is_prefix_of(tasks_back(crate::text::lines_of(content))),
        last_tasks(content, max).len() <= if max < 1 {
            1
        } else {
            max
        },
        tasks_back(crate::text::lines_of(content)).len() <= max ==> last_tasks(content, max)
            == tasks_back(crate::text::lines_of(content)),
        max >= 1 && tasks_back(crate::text::lines_of(content)).len() > max ==> last_tasks(
            content,
            max,
        ).len() == max,
{
}

proof fn lemma_with_tasks(out: Seq<char>, tasks: Seq<TaskView>, n: int, k: int)
    requires
        0 < k <= n <= tasks.len(),
    ensures
        stands_in(with_tasks(out, tasks, n), task_line(k, tasks[tasks.len() - k])),
    decreases n,
{
    let line = task_line(n, tasks[tasks.len() - n]);
    let front = with_tasks(out, tasks, n - 1);
    if k == n {
        lemma_stands_in_sum(front, line, Seq::empty());
    } else {
        lemma_with_tasks(out, tasks, n - 1, k);
        lemma_stands_in_part(
            Seq::empty(),
            front,
            line,
            task_line(k, tasks[tasks.len() - k]),
        );
    }
}

/// Tasks are shown the oldest first, numbered from one: the task, whether it went well, and
/// the first hundred and fifty characters of what came of it. Where there is none, nothing is
/// shown.
pub proof fn law_tasks_shown(tasks: Seq<TaskView>, k: int)
    ensures
        tasks.len() == 0 ==> tasks_shown(tasks).len() == 0,
        0 < k <= tasks.len() ==> ({
            let t = tasks[tasks.len() - k];
            stands_in(
                tasks_shown(tasks),
                decimal(k) + ". 任务: "@ + t.task + " → "@ + if t.ok {
                    "成功"@
                } else {
                    "失败"@
                } + ": "@ + head(t.result, 150) + "\n"@,
            )
        }),
{
    if 0 < k <= tasks.len() {
        let title = "【之前的任务记录（供你参考，了解主人最近在做什么）】\n"@;
        let n = tasks.len() as int;
        lemma_with_tasks(title, tasks, n, k);
        lemma_stands_in_part(
            Seq::empty(),
            with_tasks(title, tasks, n),
            "【以上是历史记录，请据此理解上下文，然后执行下面的新任务】\n\n"@,
            task_line(k, tasks[n - k]),
        );
    }
}

/// What a program gave: what it said, without white space round it, if it went well and said
/// something; and what it complained of, if it did not go well.
pub proof fn law_outcome(
    success: bool,
    stdout: Seq<char>,
    stderr: Seq<char>,
    blank: Seq<char>,
    failed: Seq<char>,
)
    ensures
        success && trimmed(stdout).len() > 0 ==> outcome_of(success, stdout, stderr, blank, failed)
            == Ok::<Seq<char>, Seq<char>>(trimmed(stdout)),
        success && trimmed(stdout).len() == 0 ==> outcome_of(success, stdout, stderr, blank, failed)
            == Err::<Seq<char>, Seq<char>>(blank),
        !success ==> outcome_of(success, stdout, stderr, blank, failed) == Err::<
            Seq<char>,
            Seq<char>,
        >(failed + trimmed(stderr)),
{
}

// ---------------------------------------------------------------------------
// Decisions
// ---------------------------------------------------------------------------

/// Facts are looked for after a turn of the user of eight bytes or more.
pub proof fn law_facts_looked_for(role: Seq<char>, content: Seq<char>)
    ensures
        tells_facts(role, content) <==> role == "user"@ && byte_size(trimmed(content)) >= 8,
        is_entity(role) <==> role == "master"@ || role == "neko"@ || role == "relationship"@,
{
}

/// An activity is described anew if it is another, if none was described, or if the
/// description is older than five minutes.
pub proof fn law_described_anew(c: GuessView, signature: Seq<char>, now: Seconds)
    requires
        signature.len() > 0,
    ensures
        c.stale(signature, now) <==> c.signature != signature || now.micros - c.at.micros
            > 300_000_000,
        c.stale(signature, now) ==> c.claimed(signature, now).at == now,
        !c.stale(signature, now) ==> c.claimed(signature, now) == c,
{
}

/// The time of a turn is told by two digits each for the hour, the minute and the second.
pub proof fn law_time_of_day(h: int, m: int, s: int, day: i32)
    requires
        0 <= h < 24,
        0 <= m < 60,
        0 <= s < 60,
    ensures
        time_of_day((Wall { day, second: (h * 3600 + m * 60 + s) as u32, frac: 0 }))
            == crate::text::two_digits(h) + ":"@ + crate::text::two_digits(m) + ":"@
            + crate::text::two_digits(s),
        crate::text::two_digits(m) == seq![
            (48 + m / 10) as u8 as char,
            (48 + m % 10) as u8 as char,
        ],
{
    let n = h * 3600 + m * 60 + s;
    assert(n / 3600 == h);
    assert(n / 60 == h * 60 + m);
    assert(n / 60 % 60 == m);
    assert(n % 60 == s);
    if m >= 10 {
        crate::text_laws::law_decimal(m / 10, m % 10);
        crate::text_laws::law_decimal(0, m / 10);
        assert(m == 10 * (m / 10) + m % 10);
        assert(crate::text::decimal(m) =~= seq![
            (48 + m / 10) as u8 as char,
            (48 + m % 10) as u8 as char,
        ]);
    } else {
        assert(crate::text::two_digits(m) =~= seq![
            (48 + m / 10) as u8 as char,
            (48 + m % 10) as u8 as char,
        ]);
    }
}

/// The last items of a sequence are its end, as many as asked for or all.
pub proof fn law_last_of<T>(s: Seq<T>, n: int)
    requires
        0 <= n,
    ensures
        last_of(s, n).is_suffix_of(s),
        s.len() <= n ==> last_of(s, n) == s,
        s.len() > n ==> last_of(s, n).len() == n,
{
}

/// The memory is shown by its facts in their order, each with its id, text, importance,
/// entity and date, the conversation and the personas.
pub proof fn law_store_shown(s: StoreView, i: int)
    ensures
        ({
            let r = store_shown(s);
            let fs = r.items_at("facts"@)->0;
            &&& r.items_at("facts"@) is Some && fs.len() == s.all_facts().len()
            &&& 0 <= i < fs.len() ==> fs[i].text_at("id"@) == Some(s.all_facts()[i].id)
                && fs[i].text_at("text"@) == Some(s.all_facts()[i].text)
                && fs[i].integer_at("importance"@) == Some(s.all_facts()[i].importance as i64)
                && fs[i].text_at("entity"@) == Some(s.all_facts()[i].entity)
                && fs[i].text_at("created_at"@) == Some(s.all_facts()[i].created_at)
            &&& r.items_at("recent"@) == Some(crate::memory::items_or_none(s.recent))
            &&& r.get("persona"@) == Some(s.persona)
        }),
{
    reveal_strlit("facts");
    reveal_strlit("recent");
    reveal_strlit("persona");
    reveal_strlit("id");
    reveal_strlit("text");
    reveal_strlit("importance");
    reveal_strlit("entity");
    reveal_strlit("created_at");
    assert("facts"@.len() == 5 && "recent"@.len() == 6 && "persona"@.len() == 7);
    assert("id"@.len() == 2 && "text"@.len() == 4 && "importance"@.len() == 10 && "entity"@.len()
        == 6 && "created_at"@.len() == 10);
    assert("importance"@[0] == 'i' && "created_at"@[0] == 'c');
    let fields = store_shown(s)->Record_0;
    law_field(fields, "facts"@, 0);
    law_field(fields, "recent"@, 1);
    law_field(fields, "persona"@, 2);
    let fs = s.all_facts().map_values(|f: FactView| fact_shown(f));
    if 0 <= i < fs.len() {
        let f = fs[i]->Record_0;
        law_field(f, "id"@, 0);
        law_field(f, "text"@, 1);
        law_field(f, "importance"@, 2);
        law_field(f, "entity"@, 3);
        law_field(f, "created_at"@, 4);
    }
}

/// What the model is told for a description: the window, the time without input, how long the
/// state has lasted, the switches, and the state.
pub proof fn law_signals_in_words(s: crate::activity::SnapshotView)
    ensures
        ("窗口: "@ + s.active_window + " | 空闲: "@ + decimal(s.idle_seconds as int) + "s | "@).is_prefix_of(
            crate::companion::signals_of(s),
        ),
        stands_in(crate::companion::signals_of(s), " | 状态: "@ + s.state.name_text()),
        stands_in(
            crate::companion::signals_of(s),
            "5min切换: "@ + decimal(s.switch_rate_5min) + "次"@,
        ),
        s.state_age_seconds.micros >= 0 ==> stands_in(
            crate::companion::signals_of(s),
            "状态持续: "@ + decimal(s.state_age_seconds.micros as int / 1_000_000) + "s"@,
        ),
{
    let r = crate::companion::signals_of(s);
    reveal_strlit("s | 状态持续: ");
    reveal_strlit("s | ");
    reveal_strlit("状态持续: ");
    reveal_strlit("s | 5min切换: ");
    reveal_strlit("s");
    reveal_strlit(" | ");
    reveal_strlit("5min切换: ");
    reveal_strlit("次 | 状态: ");
    reveal_strlit("次");
    reveal_strlit(" | 状态: ");
    assert("s | 状态持续: "@ =~= "s | "@ + "状态持续: "@);
    assert("s | 5min切换: "@ =~= "s"@ + " | "@ + "5min切换: "@);
    assert("次 | 状态: "@ =~= "次"@ + " | 状态: "@);
    let age = decimal(
        crate::clock::quotient(s.state_age_seconds.micros as int, 1_000_000),
    );
    let a = "窗口: "@ + s.active_window + " | 空闲: "@ + decimal(s.idle_seconds as int) + "s | "@;
    let b = "状态持续: "@ + age + "s"@;
    let c = "5min切换: "@ + decimal(s.switch_rate_5min) + "次"@;
    let d = " | 状态: "@ + s.state.name_text();
    assert(r =~= a + b + (" | "@ + c + d));
    assert(r =~= (a + b + " | "@) + c + d);
    lemma_stands_in_sum(a, b, " | "@ + c + d);
    lemma_stands_in_sum(a + b + " | "@, c, d);
    lemma_stands_in_sum(a + b + " | "@ + c, d, Seq::empty());
    assert(a =~= r.subrange(0, a.len() as int));
}

/// A sample reaches the machine by the category and the name of the window in front, the time
/// without input and its own moment; a message of the user notes its moment.
pub proof fn law_sample(m: crate::activity::MachineView, sig: crate::activity::SystemSignals)
    ensures
        crate::companion::sampled(m, sig) == m.observed(
            sig.idle_seconds,
            sig.timestamp_secs,
            crate::activity::category_of(sig.process_name@, sig.window_title@),
            crate::activity::app_name_of(sig.process_name@, sig.window_title@),
        ),
        m.heard(sig.timestamp_secs) == (crate::activity::MachineView {
            last_user_msg_at: Some(sig.timestamp_secs),
            ..m
        }),
{
}

/// The bounds that the companion keeps.
pub proof fn law_bounds()
    ensures
        crate::companion::CHAT_LOG_MAX == 500,
        crate::companion::TASK_HISTORY_MAX == 50,
        crate::companion::RECALL_MAX == 10,
        crate::companion::EXTRACT_BYTES == 6000,
        crate::companion::GUESS_BYTES == 1500,
        crate::companion::THREAD_BYTES == 3000,
        crate::companion::SHOT_WAIT == 60_000_000,
        crate::dedup::DEDUP_BATCH == 10,
        crate::memory_reflect::RELATED_FACTS == 10,
        crate::memory_reflect::SIGNAL_FACTS == 10,
        crate::memory_reflect::SIGNAL_OBSERVATIONS == 15,
{
}

/// What is said where something was not found on the screen: what was looked for, and what
/// the model answered.
pub proof fn law_not_found(target: Seq<char>, answer: Seq<char>)
    ensures
        stands_in(crate::vision::not_found(target, answer), target),
        stands_in(crate::vision::not_found(target, answer), trimmed(answer)),
{
    let r = crate::vision::not_found(target, answer);
    let a = "屏幕上没找到: "@;
    let b = "（模型回答: "@;
    let c = "）"@;
    assert(r =~= a + target + (b + trimmed(answer) + c));
    assert(r =~= (a + target + b) + trimmed(answer) + c);
    lemma_stands_in_sum(a, target, b + trimmed(answer) + c);
    lemma_stands_in_sum(a + target + b, trimmed(answer), c);
}

/// A look at a picture goes to the model for pictures, with the briefing, the picture and the
/// question.
pub proof fn law_picture_request(
    config: Option<Seq<char>>,
    b64: Seq<char>,
    prompt: Seq<char>,
    system: Seq<char>,
    max_tokens: u32,
)
    ensures
        ({
            let r = crate::vision::picture_request(config, b64, prompt, system, max_tokens);
            let ms = r.items_at("messages"@)->0;
            &&& r.text_at("model"@) == Some(vision_model_of(config))
            &&& r.items_at("messages"@) is Some && ms.len() == 2
            &&& ms[0].text_at("content"@) == Some(system)
            &&& ms[1].get("content"@) == Some(crate::chat::picture_and_text(b64, prompt))
            &&& r.integer_at("max_tokens"@) == Some(max_tokens as i64)
        }),
{
    let user = crate::chat::picture_and_text(b64, prompt);
    law_briefed(system, user);
    law_request(
        vision_model_of(config),
        crate::chat::briefed(system, user),
        Some(max_tokens),
        false,
    );
}

/// In a leap second the second is told as the next one. The snapshot of a beat is at the
/// moment of the clock, with the whole hour of the day and the day of the week.
pub proof fn law_clock_of_a_beat(
    second: u32,
    frac: u32,
    day: i32,
    m: crate::activity::MachineView,
    sig: crate::activity::SystemSignals,
    now: crate::clock::Now,
)
    ensures
        frac >= 1_000_000_000 ==> time_of_day((Wall { day, second, frac }))
            == crate::text::two_digits((second / 3600) as int) + ":"@ + crate::text::two_digits(
            (second / 60 % 60) as int,
        ) + ":"@ + crate::text::two_digits(second % 60 + 1),
        frac < 1_000_000_000 ==> time_of_day((Wall { day, second, frac }))
            == crate::text::two_digits((second / 3600) as int) + ":"@ + crate::text::two_digits(
            (second / 60 % 60) as int,
        ) + ":"@ + crate::text::two_digits((second % 60) as int),
        crate::companion::snapshot_after(m, sig, now).hour * 3600 <= now.wall.second < (
        crate::companion::snapshot_after(m, sig, now).hour + 1) * 3600,
        crate::companion::snapshot_after(m, sig, now).weekday == now.weekday,
        crate::companion::snapshot_after(m, sig, now).state == crate::companion::sampled(
            m,
            sig,
        ).judged(now.moment()),
        now.micros >= 0 ==> now.moment().micros == now.micros && now.dice() == now.nanos,
        now.micros < 0 ==> now.moment().micros == 0 && now.dice() == 0,
{
}

} // verus!
