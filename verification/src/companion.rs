//! The companion as a whole: its state, the talk with the user, and the beat by which it
//! speaks up.

use crate::activity::{
    app_name_of, category_of, ActivitySnapshot, ActivityState, ActivityStateMachine, MachineView,
    SnapshotView, SystemSignals, WindowCategory, AWAY_IDLE_SECONDS,
};
use crate::chat::{
    content_of, message, message_json, picture_and_text, picture_content, reply_content, request,
    request_json, text_json, whole_number,
};
use crate::clock::{local_now, quotient, Now, Seconds, Wall};
use crate::config::{
    chat_model, chat_model_of, content_view, same_result, vision_model, vision_model_of,
};
use crate::json::{json_read, json_views, lemma_json_view, read_json, Json, JsonView};
use crate::memory::{
    conversation, copy_jsons, fact_views, items_or_none, last_of, push_last, turn, turn_json, Fact,
    FactView, MemoryStore, StoreView,
};
use crate::open_threads::{open_threads_request, threads_request, OpenThreadsCache, ThreadsView};
use crate::order::at_most;
use crate::proactive::{
    is_left_alone, left_alone, reminder_view, ProactiveState, ProactiveView, ReminderKind,
    ReminderView,
};
use crate::text::{
    byte_len, byte_size, decimal, decimal_i64, decimal_u64, digit, head, is_blank, is_empty, join,
    joined, lines, lines_of, same_text, take_chars, trim, trimmed, two_digits, views,
};
use crate::topic::TopicPool;
use crate::vision::{activity_guess_request, compress_screenshot_to_b64, guess_request, shrunk};
use vstd::prelude::*;

verus! {

// ---------------------------------------------------------------------------
// The chat log
// ---------------------------------------------------------------------------

/// The most entries of the chat log.
pub const CHAT_LOG_MAX: usize = 500;

/// What was said, for the window that shows it.
pub struct ChatLog {
    entries: Vec<Json>,
}

impl View for ChatLog {
    type V = Seq<JsonView>;

    closed spec fn view(&self) -> Seq<JsonView> {
        json_views(self.entries@)
    }
}

/// A time of day as `hh:mm:ss`. A leap second is the sixtieth of its minute.
pub open spec fn time_of_day(t: Wall) -> Seq<char> {
    let leap = if t.frac >= 1_000_000_000 {
        1int
    } else {
        0int
    };
    two_digits((t.second / 3600) as int) + ":"@ + two_digits((t.second / 60 % 60) as int) + ":"@
        + two_digits(t.second % 60 + leap)
}

fn write_two(n: u32) -> (r: String)
    ensures
        r@ == two_digits(n as int),
{
    if n < 10 {
        let mut out = "0".to_string();
        let d = decimal_u64(n as u64);
        out.append(d.as_str());
        proof {
            reveal_strlit("0");
            assert(d@ =~= seq![digit(n as int)]);
            assert(out@ =~= seq!['0', digit(n as int)]);
        }
        out
    } else {
        decimal_u64(n as u64)
    }
}

/// A time of day as `hh:mm:ss`.
pub fn clock_face(t: Wall) -> (r: String)
    ensures
        r@ == time_of_day(t),
{
    let leap: u32 = if t.frac >= 1_000_000_000 {
        1
    } else {
        0
    };
    let mut out = write_two(t.second / 3600);
    out.append(":");
    out.append(write_two(t.second / 60 % 60).as_str());
    out.append(":");
    out.append(write_two(t.second % 60 + leap).as_str());
    out
}

impl ChatLog {
    /// An empty log.
    pub fn new() -> (r: ChatLog)
        ensures
            r@ == Seq::<JsonView>::empty(),
    {
        let r = ChatLog { entries: Vec::new() };
        proof {
            assert(r@ =~= Seq::<JsonView>::empty());
        }
        r
    }

    /// Writes down what was said, now.
    pub fn append_chat_log(&mut self, role: &str, content: &str)
        ensures
            exists|now: Wall|
                final(self)@ == last_of(
                    old(self)@.push(turn(role@, content@, #[trigger] time_of_day(now))),
                    CHAT_LOG_MAX as int,
                ),
    {
        self.append_chat_log_at(role, content, local_now().wall);
    }

    /// Writes down what was said at `now`. Only the last entries are kept.
    pub fn append_chat_log_at(&mut self, role: &str, content: &str, now: Wall)
        ensures
            final(self)@ == last_of(
                old(self)@.push(turn(role@, content@, time_of_day(now))),
                CHAT_LOG_MAX as int,
            ),
    {
        let entry = turn_json(role, content, clock_face(now).as_str());
        self.entries = push_last(&self.entries, entry, CHAT_LOG_MAX);
    }

    /// All that is written down.
    pub fn get_chat_log(&self) -> (r: Vec<Json>)
        ensures
            json_views(r@) == self@,
    {
        copy_jsons(&self.entries)
    }

    /// Forgets all that is written down.
    pub fn clear_chat_log(&mut self)
        ensures
            final(self)@ == Seq::<JsonView>::empty(),
    {
        self.entries = Vec::new();
        proof {
            assert(self@ =~= Seq::<JsonView>::empty());
        }
    }
}

/// The log never grows beyond its bound, and the newest entry is its last.
pub proof fn law_chat_log_bounded(log: Seq<JsonView>, entry: JsonView)
    ensures
        last_of(log.push(entry), CHAT_LOG_MAX as int).len() <= CHAT_LOG_MAX,
        last_of(log.push(entry), CHAT_LOG_MAX as int).last() == entry,
{
}

// ---------------------------------------------------------------------------
// Talk
// ---------------------------------------------------------------------------

/// The briefing with what is remembered behind it.
pub open spec fn with_memory(system: Seq<char>, memory: Seq<char>) -> Seq<char> {
    if memory.len() == 0 {
        system
    } else {
        system + "\n\n"@ + memory
    }
}

/// The messages with the briefing before them, unless it is blank.
pub open spec fn with_briefing(system: Seq<char>, messages: Seq<JsonView>) -> Seq<JsonView> {
    if trimmed(system).len() == 0 {
        messages
    } else {
        seq![message("system"@, JsonView::Text(system))] + messages
    }
}

/// Whether a message is of the user.
pub open spec fn is_user(m: JsonView) -> bool {
    m.text_at("role"@) == Some("user"@)
}

/// The messages, the last one of the user with a picture before its text.
pub open spec fn with_picture(messages: Seq<JsonView>, b64: Seq<char>) -> Seq<JsonView>
    decreases messages.len(),
{
    if messages.len() == 0 {
        messages
    } else {
        let last = messages.last();
        if is_user(last) {
            messages.drop_last().push(
                message("user"@, picture_and_text(b64, last.text_or("content"@, ""@))),
            )
        } else {
            with_picture(messages.drop_last(), b64).push(last)
        }
    }
}

/// A picture as it is sent; nothing where there is none or it is of no use.
pub open spec fn usable_picture(image: Option<(Seq<u8>, Seq<char>)>) -> Option<Seq<char>> {
    match image {
        Some(file) => match shrunk(file.0, file.1) {
            Ok(b64) => Some(b64),
            Err(_) => None,
        },
        None => None,
    }
}

/// The bytes and the extension of a file that may be missing.
pub open spec fn file_view(image: Option<(&[u8], &str)>) -> Option<(Seq<u8>, Seq<char>)> {
    match image {
        Some(file) => Some((file.0@, file.1@)),
        None => None,
    }
}

/// The request for a reply to the user.
pub open spec fn chat_request(
    config: Option<Seq<char>>,
    memory: Seq<char>,
    messages: Seq<JsonView>,
    system: Seq<char>,
    json_mode: bool,
    image: Option<(Seq<u8>, Seq<char>)>,
) -> JsonView {
    let all = with_briefing(with_memory(system, memory), messages);
    match usable_picture(image) {
        Some(b64) => request(vision_model_of(config), with_picture(all, b64), None, json_mode),
        None => request(chat_model_of(config), all, None, json_mode),
    }
}

fn put_picture(messages: Vec<Json>, b64: &str) -> (r: Vec<Json>)
    ensures
        json_views(r@) == with_picture(json_views(messages@), b64@),
{
    let ghost all = json_views(messages@);
    let mut out = messages;
    let mut n: usize = out.len();
    proof {
        assert(all.take(n as int) =~= all);
        assert(all.skip(n as int) =~= Seq::<JsonView>::empty());
        assert(with_picture(all, b64@) + Seq::<JsonView>::empty() =~= with_picture(all, b64@));
    }
    while n > 0
        invariant
            n <= out.len(),
            all == json_views(out@),
            all == json_views(messages@),
            with_picture(all.take(n as int), b64@) + all.skip(n as int) == with_picture(all, b64@),
        decreases n,
    {
        let i: usize = n - 1;
        let ghost front = all.take(n as int);
        proof {
            assert(front.last() == out@[i as int]@);
            assert(front.drop_last() =~= all.take(i as int));
        }
        let by_user: bool = match out[i].text_at("role") {
            Some(role) => same_text(role, "user"),
            None => false,
        };
        if by_user {
            let text = out[i].text_or("content", "");
            let m = message_json("user", picture_content(b64, text.as_str()));
            let ghost said = m@;
            out.remove(i);
            out.insert(i, m);
            proof {
                assert(json_views(out@) =~= front.drop_last().push(said) + all.skip(n as int));
            }
            return out;
        }
        proof {
            assert(with_picture(all.take(i as int), b64@) + all.skip(i as int) =~= with_picture(
                front,
                b64@,
            ) + all.skip(n as int));
        }
        n = i;
    }
    proof {
        assert(all.take(0) + all.skip(0) =~= all);
    }
    out
}

/// The request for a reply to the user, with what is remembered as of `now`, and with the
/// picture in a file, given by its bytes and its extension, if it is of use.
pub fn llm_chat_request(
    config: Option<&str>,
    store: &MemoryStore,
    scores: &Vec<i64>,
    now: Wall,
    messages: Vec<Json>,
    system: &str,
    json_mode: bool,
    image: Option<(&[u8], &str)>,
) -> (r: Json)
    requires
        scores@.len() == store@.reflections.len(),
    ensures
        r@ == chat_request(
            content_view(config),
            store@.context(8, 2000, scores@, now),
            json_views(messages@),
            system@,
            json_mode,
            file_view(image),
        ),
{
    let memory = store.render_memory_context_at(8, 2000, scores, now);
    let mut sys = system.to_string();
    if !is_empty(memory.as_str()) {
        sys.append("\n\n");
        sys.append(memory.as_str());
    }
    let ghost given = json_views(messages@);
    let mut all = messages;
    if !is_blank(sys.as_str()) {
        let brief = message_json("system", text_json(sys.as_str()));
        let ghost said = brief@;
        all.insert(0, brief);
        proof {
            assert(json_views(all@) =~= seq![said] + given);
        }
    }
    let b64 = match image {
        Some((bytes, extension)) => match compress_screenshot_to_b64(bytes, extension) {
            Ok(b64) => Some(b64),
            Err(_) => None,
        },
        None => None,
    };
    match b64 {
        Some(b64) => {
            let shown = put_picture(all, b64.as_str());
            request_json(vision_model(config).as_str(), shown, None, json_mode)
        },
        None => request_json(chat_model(config).as_str(), all, None, json_mode),
    }
}

/// The reply to the user.
pub fn llm_chat(body: &Json) -> (r: Result<String, String>)
    ensures
        match content_of(body@) {
            Some(content) => r matches Ok(t) && t@ == content,
            None => r matches Err(e) && e@ == "千问响应中没有内容"@,
        },
{
    match reply_content(body) {
        Some(content) => Ok(content.to_string()),
        None => Err("千问响应中没有内容".to_string()),
    }
}

proof fn lemma_with_picture(messages: Seq<JsonView>, b64: Seq<char>)
    ensures
        with_picture(messages, b64).len() == messages.len(),
        (forall|i: int| 0 <= i < messages.len() ==> !is_user(#[trigger] messages[i]))
            ==> with_picture(messages, b64) == messages,
    decreases messages.len(),
{
    if messages.len() > 0 && !is_user(messages.last()) {
        let rest = messages.drop_last();
        lemma_with_picture(rest, b64);
        if forall|i: int| 0 <= i < messages.len() ==> !is_user(#[trigger] messages[i]) {
            assert forall|i: int| 0 <= i < rest.len() implies !is_user(#[trigger] rest[i]) by {
                assert(rest[i] == messages[i]);
            }
            assert(rest.push(messages.last()) =~= messages);
        }
    } else if messages.len() > 0 {
        assert(is_user(messages[messages.len() - 1]));
    } else {
        assert(with_picture(messages, b64) =~= messages);
    }
}

/// A picture changes no number of messages, and where the user has said nothing it
/// changes nothing.
pub proof fn law_picture_keeps_messages(messages: Seq<JsonView>, b64: Seq<char>)
    ensures
        with_picture(messages, b64).len() == messages.len(),
        (forall|i: int| 0 <= i < messages.len() ==> !is_user(#[trigger] messages[i]))
            ==> with_picture(messages, b64) == messages,
{
    lemma_with_picture(messages, b64);
}

// ---------------------------------------------------------------------------
// The history of tasks
// ---------------------------------------------------------------------------

/// The most tasks that are written down.
pub const TASK_HISTORY_MAX: usize = 50;

/// A task that was done.
pub struct Task {
    pub task: String,
    pub ok: bool,
    pub result: String,
}

/// The contents of a task.
pub struct TaskView {
    pub task: Seq<char>,
    pub ok: bool,
    pub result: Seq<char>,
}

impl View for Task {
    type V = TaskView;

    open spec fn view(&self) -> TaskView {
        TaskView { task: self.task@, ok: self.ok, result: self.result@ }
    }
}

/// The contents of each task.
pub open spec fn task_views(v: Seq<Task>) -> Seq<TaskView> {
    v.map_values(|t: Task| t@)
}

/// The task that a document tells of.
pub open spec fn task_in(v: JsonView) -> TaskView {
    TaskView {
        task: v.text_or("task"@, ""@),
        ok: match v.get("ok"@) {
            Some(b) => b.truth() == Some(true),
            None => false,
        },
        result: v.text_or("result"@, ""@),
    }
}

/// The tasks in lines, the last line first. Lines that are no JSON are passed over.
pub open spec fn tasks_back(rows: Seq<Seq<char>>) -> Seq<TaskView>
    decreases rows.len(),
{
    if rows.len() == 0 {
        Seq::empty()
    } else {
        let rest = tasks_back(rows.drop_last());
        match json_read(rows.last()) {
            Ok(v) => seq![task_in(v)] + rest,
            Err(_) => rest,
        }
    }
}

/// The last tasks in a history, the last one first; as many as asked for and one at
/// least.
pub open spec fn last_tasks(content: Seq<char>, max: int) -> Seq<TaskView> {
    at_most(
        tasks_back(lines_of(content)),
        if max < 1 {
            1
        } else {
            max
        },
    )
}

/// A task as it is shown.
pub open spec fn task_line(n: int, t: TaskView) -> Seq<char> {
    decimal(n) + ". 任务: "@ + t.task + " → "@ + if t.ok {
        "成功"@
    } else {
        "失败"@
    } + ": "@ + head(t.result, 150) + "\n"@
}

/// `out` followed by the lines of the last `n` tasks, of which the last comes first in
/// `tasks`; they are numbered from 1.
pub open spec fn with_tasks(out: Seq<char>, tasks: Seq<TaskView>, n: int) -> Seq<char>
    decreases n,
{
    if n <= 0 {
        out
    } else {
        with_tasks(out, tasks, n - 1) + task_line(n, tasks[tasks.len() - n])
    }
}

/// Tasks as they are put before a new one; nothing where there are none.
pub open spec fn tasks_shown(tasks: Seq<TaskView>) -> Seq<char> {
    if tasks.len() == 0 {
        Seq::empty()
    } else {
        with_tasks(
            "【之前的任务记录（供你参考，了解主人最近在做什么）】\n"@,
            tasks,
            tasks.len() as int,
        ) + "【以上是历史记录，请据此理解上下文，然后执行下面的新任务】\n\n"@
    }
}

/// The task that a document tells of.
pub fn read_task(v: &Json) -> (r: Task)
    ensures
        r@ == task_in(v@),
{
    Task {
        task: v.text_or("task", ""),
        ok: match v.get("ok") {
            Some(b) => match b.as_bool() {
                Some(t) => t,
                None => false,
            },
            None => false,
        },
        result: v.text_or("result", ""),
    }
}

fn read_tasks(rows: &Vec<String>) -> (r: Vec<Task>)
    ensures
        task_views(r@) == tasks_back(views(rows@)),
{
    let ghost all = views(rows@);
    let mut out: Vec<Task> = Vec::new();
    let mut i: usize = 0;
    proof {
        assert(task_views(out@) =~= tasks_back(all.take(0)));
    }
    while i < rows.len()
        invariant
            i <= rows.len(),
            all == views(rows@),
            task_views(out@) == tasks_back(all.take(i as int)),
        decreases rows.len() - i,
    {
        let ghost before = task_views(out@);
        proof {
            assert(all.take(i + 1).drop_last() =~= all.take(i as int));
            assert(all.take(i + 1).last() == rows@[i as int]@);
        }
        if let Ok(v) = read_json(rows[i].as_str()) {
            let t = read_task(&v);
            let ghost said = t@;
            out.insert(0, t);
            proof {
                assert(task_views(out@) =~= seq![said] + before);
            }
        }
        i = i + 1;
    }
    proof {
        assert(all.take(i as int) =~= all);
    }
    out
}

/// Tasks, the last one first, as they are put before a new one.
pub fn show_tasks(tasks: &Vec<Task>) -> (r: String)
    ensures
        r@ == tasks_shown(task_views(tasks@)),
{
    let ghost all = task_views(tasks@);
    if tasks.len() == 0 {
        let nothing = String::new();
        proof {
            assert(nothing@ =~= Seq::<char>::empty());
        }
        return nothing;
    }
    let mut out = "【之前的任务记录（供你参考，了解主人最近在做什么）】\n".to_string();
    let ghost title = out@;
    let mut n: usize = 0;
    while n < tasks.len()
        invariant
            n <= tasks.len(),
            all == task_views(tasks@),
            out@ == with_tasks(title, all, n as int),
        decreases tasks.len() - n,
    {
        let t = &tasks[tasks.len() - 1 - n];
        proof {
            assert(all[all.len() - (n + 1)] == t@);
        }
        let mut line = decimal_u64((n + 1) as u64);
        line.append(". 任务: ");
        line.append(t.task.as_str());
        line.append(" → ");
        if t.ok {
            line.append("成功");
        } else {
            line.append("失败");
        }
        line.append(": ");
        line.append(take_chars(t.result.as_str(), 150).as_str());
        line.append("\n");
        out.append(line.as_str());
        n = n + 1;
    }
    out.append("【以上是历史记录，请据此理解上下文，然后执行下面的新任务】\n\n");
    out
}

/// The last tasks of a history, as they are put before a new one; nothing where the
/// history could not be read or is empty.
pub fn task_history_prefix(content: Option<&str>, max: usize) -> (r: String)
    ensures
        match content {
            Some(s) => r@ == tasks_shown(last_tasks(s@, max as int)),
            None => r@.len() == 0,
        },
{
    match content {
        Some(s) => {
            let all = read_tasks(&lines(s));
            let limit: usize = if max < 1 {
                1
            } else {
                max
            };
            let ghost said = task_views(all@);
            let top = crate::order::shorten(all, limit);
            proof {
                assert(task_views(top@) =~= at_most(said, limit as int));
            }
            show_tasks(&top)
        },
        None => String::new(),
    }
}

/// A task as it is written down.
pub open spec fn task_entry(ts: Seq<char>, task: Seq<char>, ok: bool, result: Seq<char>) -> JsonView {
    JsonView::Record(
        seq![
            ("ts"@, JsonView::Text(ts)),
            ("task"@, JsonView::Text(head(task, 200))),
            ("ok"@, JsonView::Bool(ok)),
            ("result"@, JsonView::Text(head(result, 300))),
        ],
    )
}

/// A task as it is written down.
pub fn append_task_history(ts: &str, task: &str, ok: bool, result: &str) -> (r: Json)
    ensures
        r@ == task_entry(ts@, task@, ok, result@),
{
    let r = Json::Record(
        vec![
            ("ts".to_string(), text_json(ts)),
            ("task".to_string(), Json::Text(take_chars(task, 200))),
            ("ok".to_string(), Json::Bool(ok)),
            ("result".to_string(), Json::Text(take_chars(result, 300))),
        ],
    );
    proof {
        lemma_json_view(r);
        assert(r@->Record_0 =~= task_entry(ts@, task@, ok, result@)->Record_0);
    }
    r
}

/// A history cut to its last lines; nothing where it is short enough.
pub fn trim_task_history(content: &str) -> (r: Option<String>)
    ensures
        match r {
            Some(s) => lines_of(content@).len() > TASK_HISTORY_MAX && s@ == joined(
                last_of(lines_of(content@), TASK_HISTORY_MAX as int),
                "\n"@,
            ) + "\n"@,
            None => lines_of(content@).len() <= TASK_HISTORY_MAX,
        },
{
    let mut rows = lines(content);
    let ghost all = views(rows@);
    let n: usize = rows.len();
    proof {
        assert(all.len() == n);
    }
    if n <= TASK_HISTORY_MAX {
        return None;
    }
    let tail = rows.split_off(n - TASK_HISTORY_MAX);
    proof {
        assert(views(tail@) =~= all.skip(n - TASK_HISTORY_MAX));
    }
    let mut out = join(&tail, "\n");
    out.append("\n");
    Some(out)
}

/// What is written down of a task reads back as the task, cut to its first characters.
pub proof fn law_task_reads_back(ts: Seq<char>, task: Seq<char>, ok: bool, result: Seq<char>)
    ensures
        task_in(task_entry(ts, task, ok, result)) == (TaskView {
            task: head(task, 200),
            ok,
            result: head(result, 300),
        }),
{
    reveal_strlit("ts");
    reveal_strlit("task");
    reveal_strlit("ok");
    reveal_strlit("result");
    reveal_with_fuel(crate::json::find_field, 5);
    let f = task_entry(ts, task, ok, result)->Record_0;
    assert(f.drop_first()[0] == f[1]);
    assert(f.drop_first().drop_first()[0] == f[2]);
    assert(f.drop_first().drop_first().drop_first()[0] == f[3]);
    assert("ts"@.len() == 2 && "ts"@[0] == 't');
    assert("ok"@.len() == 2 && "ok"@[0] == 'o');
    assert("task"@.len() == 4 && "result"@.len() == 6);
}

// ---------------------------------------------------------------------------
// Programs that are run
// ---------------------------------------------------------------------------

/// What a program that was run comes to: its output, unless that is blank or it failed.
pub open spec fn outcome_of(
    success: bool,
    stdout: Seq<char>,
    stderr: Seq<char>,
    blank: Seq<char>,
    failed: Seq<char>,
) -> Result<Seq<char>, Seq<char>> {
    if !success {
        Err(failed + trimmed(stderr))
    } else if trimmed(stdout).len() == 0 {
        Err(blank)
    } else {
        Ok(trimmed(stdout))
    }
}

/// What a program that was run comes to.
pub fn run_outcome(success: bool, stdout: &str, stderr: &str, blank: &str, failed: &str) -> (r:
    Result<String, String>)
    ensures
        same_result(r, outcome_of(success, stdout@, stderr@, blank@, failed@)),
{
    if !success {
        let mut out = failed.to_string();
        out.append(trim(stderr).as_str());
        return Err(out);
    }
    let text = trim(stdout);
    if is_empty(text.as_str()) {
        Err(blank.to_string())
    } else {
        Ok(text)
    }
}

/// What speech recognition comes to.
pub fn asr_outcome(success: bool, stdout: &str, stderr: &str) -> (r: Result<String, String>)
    ensures
        same_result(
            r,
            outcome_of(success, stdout@, stderr@, "识别结果为空"@, "ASR 识别失败: "@),
        ),
{
    run_outcome(success, stdout, stderr, "识别结果为空", "ASR 识别失败: ")
}

/// What an office task comes to.
pub fn dsh_outcome(success: bool, stdout: &str, stderr: &str) -> (r: Result<String, String>)
    ensures
        same_result(
            r,
            outcome_of(success, stdout@, stderr@, "DSH 任务完成但无输出"@, "DSH 任务失败: "@),
        ),
{
    run_outcome(success, stdout, stderr, "DSH 任务完成但无输出", "DSH 任务失败: ")
}

/// What face animation comes to: JSON, or what is wrong.
pub fn a2f_outcome(success: bool, stdout: &str, stderr: &str) -> (r: Result<Json, String>)
    ensures
        match outcome_of(
            success,
            stdout@,
            stderr@,
            "Audio2Face 推理输出为空"@,
            "Audio2Face 推理失败: "@,
        ) {
            Err(e) => r matches Err(t) && t@ == e,
            Ok(text) => match json_read(text) {
                Ok(v) => r matches Ok(j) && j@ == v,
                Err(e) => r matches Err(t) && t@ == "推理结果解析失败: "@ + e,
            },
        },
{
    match run_outcome(
        success,
        stdout,
        stderr,
        "Audio2Face 推理输出为空",
        "Audio2Face 推理失败: ",
    ) {
        Err(e) => Err(e),
        Ok(text) => match read_json(text.as_str()) {
            Ok(v) => Ok(v),
            Err(e) => {
                let mut out = "推理结果解析失败: ".to_string();
                out.append(e.as_str());
                Err(out)
            },
        },
    }
}

/// What the state of an office task comes to: JSON, or what is wrong.
pub fn dsh_status(success: bool, stdout: &str, stderr: &str) -> (r: Result<Json, String>)
    ensures
        if !success {
            r matches Err(t) && t@ == "DSH 状态解析失败: "@ + trimmed(stderr@)
        } else {
            match json_read(trimmed(stdout@)) {
                Ok(v) => r matches Ok(j) && j@ == v,
                Err(e) => r matches Err(t) && t@ == "DSH 状态 JSON 解析失败: "@ + e,
            }
        },
{
    if !success {
        let mut out = "DSH 状态解析失败: ".to_string();
        out.append(trim(stderr).as_str());
        return Err(out);
    }
    match read_json(trim(stdout).as_str()) {
        Ok(v) => Ok(v),
        Err(e) => {
            let mut out = "DSH 状态 JSON 解析失败: ".to_string();
            out.append(e.as_str());
            Err(out)
        },
    }
}

/// What a program that works the screen comes to: whether it succeeded, its output and its
/// error.
pub fn cua_outcome(success: bool, stdout: &str, stderr: &str) -> (r: (bool, String, String))
    ensures
        r.0 == success,
        r.1@ == if success {
            trimmed(stdout@)
        } else {
            Seq::empty()
        },
        r.2@ == if success {
            Seq::empty()
        } else {
            trimmed(stderr@)
        },
{
    let nothing = String::new();
    proof {
        assert(nothing@ =~= Seq::<char>::empty());
    }
    if success {
        (true, trim(stdout), nothing)
    } else {
        (false, nothing, trim(stderr))
    }
}

/// What is said where both ways of speaking failed.
pub fn tts_failure(first: &str, second: &str) -> (r: String)
    ensures
        r@ == "TTS 失败: qwen("@ + trimmed(first@) + ") edge-tts("@ + trimmed(second@) + ")"@,
{
    let mut out = "TTS 失败: qwen(".to_string();
    out.append(trim(first).as_str());
    out.append(") edge-tts(");
    out.append(trim(second).as_str());
    out.append(")");
    out
}

// ---------------------------------------------------------------------------
// The memory at the user's command
// ---------------------------------------------------------------------------

/// The most memories that are recalled at once.
pub const RECALL_MAX: usize = 10;

/// The memories that fit a query, as of `now`: six where no number is given, ten at most.
pub fn memory_recall(store: &MemoryStore, query: &str, max_items: Option<usize>, now: Wall) -> (r:
    String)
    ensures
        r@ == store@.recalled(
            query@,
            match max_items {
                Some(n) => if n < RECALL_MAX {
                    n as int
                } else {
                    RECALL_MAX as int
                },
                None => 6,
            },
            now,
        ),
{
    let max: usize = match max_items {
        Some(n) => if n < RECALL_MAX {
            n
        } else {
            RECALL_MAX
        },
        None => 6,
    };
    store.recall_at(query, max, now)
}

/// All that is remembered of the user, as of `now`, or that nothing is.
pub fn memory_summary(store: &MemoryStore, scores: &Vec<i64>, now: Wall) -> (r: Result<
    String,
    String,
>)
    requires
        scores@.len() == store@.reflections.len(),
    ensures
        ({
            let ctx = store@.context(30, 5000, scores@, now);
            if trimmed(ctx).len() == 0 {
                r matches Err(e) && e@ == "记忆还是空的，多和我聊聊我就能记住你啦"@
            } else {
                r matches Ok(t) && t@ == ctx
            }
        }),
{
    let ctx = store.render_memory_context_at(30, 5000, scores, now);
    if is_blank(ctx.as_str()) {
        return Err("记忆还是空的，多和我聊聊我就能记住你啦".to_string());
    }
    Ok(ctx)
}

/// A fact as it is shown to the user.
pub open spec fn fact_shown(f: FactView) -> JsonView {
    JsonView::Record(
        seq![
            ("id"@, JsonView::Text(f.id)),
            ("text"@, JsonView::Text(f.text)),
            ("importance"@, whole_number(f.importance as int)),
            ("entity"@, JsonView::Text(f.entity)),
            ("created_at"@, JsonView::Text(f.created_at)),
        ],
    )
}

/// All that is stored, as it is shown to the user.
pub open spec fn store_shown(s: StoreView) -> JsonView {
    JsonView::Record(
        seq![
            (
                "facts"@,
                JsonView::List(s.all_facts().map_values(|f: FactView| fact_shown(f))),
            ),
            ("recent"@, JsonView::List(items_or_none(s.recent))),
            ("persona"@, s.persona),
        ],
    )
}

fn show_fact(f: &Fact) -> (r: Json)
    ensures
        r@ == fact_shown(f@),
{
    let r = Json::Record(
        vec![
            ("id".to_string(), text_json(f.id.as_str())),
            ("text".to_string(), text_json(f.text.as_str())),
            ("importance".to_string(), crate::chat::number(f.importance as i64)),
            ("entity".to_string(), text_json(f.entity.as_str())),
            ("created_at".to_string(), text_json(f.created_at.as_str())),
        ],
    );
    proof {
        lemma_json_view(r);
        assert(r@->Record_0 =~= fact_shown(f@)->Record_0);
    }
    r
}

/// All that is stored, as it is shown to the user.
pub fn memory_get(store: &MemoryStore) -> (r: Json)
    ensures
        r@ == store_shown(store@),
{
    let facts = store.get_facts();
    let ghost goal = fact_views(facts@).map_values(|f: FactView| fact_shown(f));
    let mut shown: Vec<Json> = Vec::new();
    let mut i: usize = 0;
    while i < facts.len()
        invariant
            i <= facts.len(),
            goal == fact_views(facts@).map_values(|f: FactView| fact_shown(f)),
            json_views(shown@) =~= goal.take(i as int),
        decreases facts.len() - i,
    {
        let ghost before = json_views(shown@);
        let j = show_fact(&facts[i]);
        let ghost said = j@;
        shown.push(j);
        proof {
            assert(json_views(shown@) =~= before.push(said));
            assert(goal.take(i + 1) =~= goal.take(i as int).push(goal[i as int]));
        }
        i = i + 1;
    }
    let list = Json::List(shown);
    let recent = Json::List(store.get_recent());
    let persona = store.get_persona().copy();
    proof {
        assert(goal.take(i as int) =~= goal);
        lemma_json_view(list);
        lemma_json_view(recent);
    }
    let r = Json::Record(
        vec![
            ("facts".to_string(), list),
            ("recent".to_string(), recent),
            ("persona".to_string(), persona),
        ],
    );
    proof {
        lemma_json_view(r);
        assert(r@->Record_0 =~= store_shown(store@)->Record_0);
    }
    r
}

/// Whether there is a section for an entity.
pub open spec fn is_entity(entity: Seq<char>) -> bool {
    entity == "master"@ || entity == "neko"@ || entity == "relationship"@
}

/// Takes in what the user says of an entity at `ts`, and says so.
pub fn memory_add_persona(store: &mut MemoryStore, entity: &str, text: &str, ts: &str) -> (r:
    Result<String, String>)
    ensures
        if !is_entity(entity@) {
            r matches Err(e) && e@ == "entity 必须是 master/neko/relationship"@ && final(store)@
                == old(store)@
        } else {
            final(store)@ == old(store)@.with_persona(entity@, text@, ts@)
                && match old(store)@.persona_accepted(entity@, text@) {
                Ok(true) => r matches Ok(t) && t@ == "已记住"@,
                Ok(false) => r matches Ok(t) && t@ == "已经记住了"@,
                Err(e) => r matches Err(t) && t@ == e,
            }
        },
{
    if !(same_text(entity, "master") || same_text(entity, "neko") || same_text(
        entity,
        "relationship",
    )) {
        return Err("entity 必须是 master/neko/relationship".to_string());
    }
    match store.add_persona_fact_at(entity, text, ts) {
        Ok(true) => Ok("已记住".to_string()),
        Ok(false) => Ok("已经记住了".to_string()),
        Err(e) => Err(e),
    }
}

// ---------------------------------------------------------------------------
// A turn of the conversation
// ---------------------------------------------------------------------------

/// The bytes of the conversation from which facts are taken.
pub const EXTRACT_BYTES: usize = 6000;

/// Whether facts are taken from the conversation after a turn: it is of the user, and
/// says something.
pub open spec fn tells_facts(role: Seq<char>, content: Seq<char>) -> bool {
    role == "user"@ && byte_size(trimmed(content)) >= 8
}

/// Takes in a turn at `now`: the memory and the topics take it in, and where it is of the
/// user, open threads are to be looked for anew and the companion is as talkative as at
/// first. Gives the conversation from which facts are to be taken, if they are.
pub fn memory_append_turn(
    store: &mut MemoryStore,
    topics: &mut TopicPool,
    threads: &mut OpenThreadsCache,
    proactive: &mut ProactiveState,
    role: &str,
    content: &str,
    now: &Now,
) -> (r: Result<Option<String>, String>)
    ensures
        match old(store)@.recent_writable() {
            Err(e) => r matches Err(t) && t@ == e && final(store)@ == old(store)@
                && final(topics)@ == old(topics)@ && final(threads)@ == old(threads)@
                && final(proactive)@ == old(proactive)@,
            Ok(_) => {
                &&& final(store)@ == old(store)@.with_turn(role@, content@, now.spaced@)
                &&& final(topics)@ == old(topics)@.turned(role@, content@, now.moment())
                &&& final(threads)@ == if role@ == "user"@ {
                    old(threads)@.invalidated()
                } else {
                    old(threads)@
                }
                &&& final(proactive)@ == if role@ == "user"@ {
                    old(proactive)@.answered()
                } else {
                    old(proactive)@
                }
                &&& r matches Ok(talk) && {
                    let text = conversation(
                        items_or_none(final(store)@.recent),
                        EXTRACT_BYTES as int,
                    );
                    match talk {
                        Some(t) => tells_facts(role@, content@) && text.len() > 0 && t@ == text,
                        None => !tells_facts(role@, content@) || text.len() == 0,
                    }
                }
            },
        },
{
    if let Err(e) = store.append_recent_at(role, content, now.spaced.as_str()) {
        return Err(e);
    }
    topics.note_turn_at(role, content, now.secs());
    let by_user = same_text(role, "user");
    if by_user {
        threads.invalidate();
        proactive.reset_backoff();
    }
    if by_user && byte_len(trim(content).as_str()) >= 8 {
        let text = store.get_recent_conversation_text(EXTRACT_BYTES);
        if !is_empty(text.as_str()) {
            return Ok(Some(text));
        }
    }
    Ok(None)
}

// ---------------------------------------------------------------------------
// The picture that waits for an answer
// ---------------------------------------------------------------------------

/// Microseconds for which a picture waits.
pub const SHOT_WAIT: i64 = 60_000_000;

/// The contents of a slot.
pub open spec fn slot_view(slot: Option<(Seconds, String)>) -> Option<(Seconds, Seq<char>)> {
    match slot {
        Some(p) => Some((p.0, p.1@)),
        None => None,
    }
}

/// Takes the picture that waits out of its slot; nothing where it has waited too long.
pub fn proactive_shot_take(slot: &mut Option<(Seconds, String)>, now: Seconds) -> (r: Option<
    String,
>)
    ensures
        *final(slot) is None,
        match slot_view(*old(slot)) {
            Some(p) => if now.micros - p.0.micros > SHOT_WAIT {
                r is None
            } else {
                r matches Some(path) && path@ == p.1
            },
            None => r is None,
        },
{
    let kept = match slot {
        Some(p) => {
            if now.micros as i128 - p.0.micros as i128 > SHOT_WAIT as i128 {
                None
            } else {
                Some(p.1.as_str().to_string())
            }
        },
        None => None,
    };
    *slot = None;
    kept
}

// ---------------------------------------------------------------------------
// What the user seems to be doing
// ---------------------------------------------------------------------------

/// Microseconds after which an unchanged activity is described anew.
pub const GUESS_PAUSE: i64 = 300_000_000;

/// The last description of the activity, what it is about, and when it was given.
pub struct GuessCache {
    pub signature: String,
    pub at: Seconds,
    pub guess: String,
}

/// The contents of the cache.
pub struct GuessView {
    pub signature: Seq<char>,
    pub at: Seconds,
    pub guess: Seq<char>,
}

impl View for GuessCache {
    type V = GuessView;

    open spec fn view(&self) -> GuessView {
        GuessView { signature: self.signature@, at: self.at, guess: self.guess@ }
    }
}

impl GuessView {
    /// Whether the activity is to be described anew: it has changed, or the description is
    /// old.
    pub open spec fn stale(self, signature: Seq<char>, now: Seconds) -> bool {
        ||| self.signature != signature
        ||| self.signature.len() == 0
        ||| now.micros - self.at.micros > GUESS_PAUSE && signature.len() > 0
    }

    /// After a look at `now`: where the activity is to be described anew, nobody else need
    /// do it for a while. The description of another activity is dropped; one of the same
    /// stays until there is a new one.
    pub open spec fn claimed(self, signature: Seq<char>, now: Seconds) -> GuessView {
        if self.stale(signature, now) {
            GuessView {
                signature,
                at: now,
                guess: if self.signature == signature {
                    self.guess
                } else {
                    Seq::empty()
                },
            }
        } else {
            self
        }
    }
}

impl GuessCache {
    /// Nothing has been described.
    pub fn new() -> (r: GuessCache)
        ensures
            r@.signature.len() == 0,
            r@.guess.len() == 0,
            r@.at.micros == 0,
    {
        GuessCache { signature: String::new(), at: Seconds { micros: 0 }, guess: String::new() }
    }

    /// Whether the activity is to be described anew at `now`; if so, nobody else need do
    /// it for a while.
    pub fn claim(&mut self, signature: &str, now: Seconds) -> (r: bool)
        ensures
            r == old(self)@.stale(signature@, now),
            final(self)@ == old(self)@.claimed(signature@, now),
    {
        let same = same_text(self.signature.as_str(), signature);
        let stale = !same || is_empty(self.signature.as_str()) || (now.micros as i128
            - self.at.micros as i128 > GUESS_PAUSE as i128 && !is_empty(signature));
        if stale {
            if !same {
                self.guess = String::new();
                proof {
                    assert(self.guess@ =~= Seq::<char>::empty());
                }
            }
            self.signature = signature.to_string();
            self.at = now;
        }
        stale
    }

    /// Keeps a description given at `now`.
    pub fn keep(&mut self, signature: &str, guess: &str, now: Seconds)
        ensures
            final(self)@ == (GuessView { signature: signature@, at: now, guess: guess@ }),
    {
        self.signature = signature.to_string();
        self.at = now;
        self.guess = guess.to_string();
    }

    /// Takes note that no description came, so that one is asked for soon.
    pub fn give_up(&mut self)
        ensures
            final(self)@ == (GuessView { at: (Seconds { micros: 0 }), ..old(self)@ }),
    {
        self.at = Seconds { micros: 0 };
    }
}

/// An activity that has just been described is not described again until it changes or
/// the pause is over.
pub proof fn law_guess_pause(
    c: GuessView,
    signature: Seq<char>,
    guess: Seq<char>,
    t0: Seconds,
    t1: Seconds,
)
    requires
        signature.len() > 0,
    ensures
        (GuessView { signature, at: t0, guess }).stale(signature, t1) <==> t1.micros - t0.micros
            > GUESS_PAUSE,
{
}

/// After a look the cache is about the activity that was looked at. A description stays
/// in it as long as the activity is the same, however old it is, and no longer.
pub proof fn law_description_stays(c: GuessView, signature: Seq<char>, now: Seconds)
    ensures
        c.claimed(signature, now).signature == signature,
        c.signature == signature ==> c.claimed(signature, now).guess == c.guess,
        c.signature != signature ==> c.claimed(signature, now).guess.len() == 0,
{
}

/// The signals that the model is shown.
pub open spec fn signals_of(s: SnapshotView) -> Seq<char> {
    "窗口: "@ + s.active_window + " | 空闲: "@ + decimal(s.idle_seconds as int)
        + "s | 状态持续: "@ + decimal(quotient(s.state_age_seconds.micros as int, 1_000_000))
        + "s | 5min切换: "@ + decimal(s.switch_rate_5min) + "次 | 状态: "@ + s.state.name_text()
}

/// The signals that the model is shown.
pub fn signals_text(s: &ActivitySnapshot) -> (r: String)
    ensures
        r@ == signals_of(s@),
{
    let mut out = "窗口: ".to_string();
    out.append(s.active_window.as_str());
    out.append(" | 空闲: ");
    out.append(decimal_u64(s.idle_seconds as u64).as_str());
    out.append("s | 状态持续: ");
    out.append(decimal_i64(s.state_age_seconds.whole(1)).as_str());
    out.append("s | 5min切换: ");
    out.append(decimal_u64(s.switch_rate_5min as u64).as_str());
    out.append("次 | 状态: ");
    out.append(s.state.name());
    out
}

/// The bytes of the conversation that goes with a description of the activity.
pub const GUESS_BYTES: usize = 1500;

/// The request for a description of the activity, by the snapshot and what is remembered
/// of the conversation.
pub fn describe_request(config: Option<&str>, store: &MemoryStore, snap: &ActivitySnapshot) -> (r:
    Json)
    ensures
        r@ == guess_request(
            content_view(config),
            signals_of(snap@),
            conversation(items_or_none(store@.recent), GUESS_BYTES as int),
            snap@.state.label_text(),
        ),
{
    let talk = store.get_recent_conversation_text(GUESS_BYTES);
    activity_guess_request(config, signals_text(snap).as_str(), talk.as_str(), snap.state.label())
}

// ---------------------------------------------------------------------------
// Open threads
// ---------------------------------------------------------------------------

/// The bytes of the conversation in which open threads are looked for.
pub const THREAD_BYTES: usize = 3000;

/// How the open threads come about that go with a remark.
pub enum ThreadsPlan {
    /// They are known.
    Known(Vec<String>),
    /// The model is to be asked for them.
    Ask(Json),
}

/// How the open threads come about at `now`: the model is asked where the user has spoken
/// since and there is a conversation, and else those that are known are taken up.
pub fn plan_threads(
    cache: &OpenThreadsCache,
    store: &MemoryStore,
    config: Option<&str>,
    now: Seconds,
) -> (r: ThreadsPlan)
    ensures
        ({
            let talk = conversation(items_or_none(store@.recent), THREAD_BYTES as int);
            if !cache@.due(now) {
                r matches ThreadsPlan::Known(ts) && views(ts@) == cache@.usable()
            } else if trimmed(talk).len() == 0 {
                r matches ThreadsPlan::Known(ts) && ts@.len() == 0
            } else {
                r matches ThreadsPlan::Ask(body) && body@ == threads_request(
                    content_view(config),
                    talk,
                )
            }
        }),
{
    if !cache.should_recompute_at(now) {
        return ThreadsPlan::Known(cache.current());
    }
    let talk = store.get_recent_conversation_text(THREAD_BYTES);
    if is_blank(talk.as_str()) {
        return ThreadsPlan::Known(Vec::new());
    }
    ThreadsPlan::Ask(open_threads_request(config, talk.as_str()))
}

// ---------------------------------------------------------------------------
// The beat
// ---------------------------------------------------------------------------

/// Beats between two attempts to speak up.
pub const BEATS_PER_CHECK: u32 = 4;

/// Counts the beats, and holds a reminder until the next attempt.
pub struct Beat {
    count: u32,
    held: Option<ReminderKind>,
}

/// The contents of the beat.
pub struct BeatView {
    pub count: u32,
    pub held: Option<ReminderView>,
}

impl View for Beat {
    type V = BeatView;

    closed spec fn view(&self) -> BeatView {
        BeatView { count: self.count, held: reminder_view(self.held) }
    }
}

impl BeatView {
    /// The number of the next beat since the last attempt.
    pub open spec fn next_count(self) -> u32 {
        if self.count >= BEATS_PER_CHECK - 1 {
            0
        } else {
            (self.count + 1) as u32
        }
    }

    /// What is held after a beat that brought this: the newer reminder, if there is one.
    pub open spec fn holding(self, reminder: Option<ReminderView>) -> Option<ReminderView> {
        match reminder {
            Some(r) => Some(r),
            None => self.held,
        }
    }

    /// After a beat that brought this: on every fourth one what was held is given or
    /// dropped, and nothing is held any more.
    pub open spec fn struck(self, reminder: Option<ReminderView>) -> BeatView {
        BeatView {
            count: self.next_count(),
            held: if self.next_count() == 0 {
                None
            } else {
                self.holding(reminder)
            },
        }
    }

    /// What is tried on a beat that brought this and saw the user in a state: on every
    /// fourth one the reminder that is held, and else a word of its own if the companion
    /// may speak. With a user who is to be left alone nothing is tried.
    pub open spec fn attempt(
        self,
        reminder: Option<ReminderView>,
        state: ActivityState,
        may_speak: bool,
    ) -> AttemptView {
        if self.next_count() != 0 || left_alone(state) {
            AttemptView::Rest
        } else {
            match self.holding(reminder) {
                Some(k) => AttemptView::Remind(k),
                None => if may_speak {
                    AttemptView::Speak
                } else {
                    AttemptView::Rest
                },
            }
        }
    }
}

/// What the companion tries on a beat.
pub enum Attempt {
    /// Nothing.
    Rest,
    /// It gives a reminder, whatever the pause.
    Remind(ReminderKind),
    /// It says something of its own.
    Speak,
}

/// The contents of an attempt.
pub enum AttemptView {
    Rest,
    Remind(ReminderView),
    Speak,
}

impl View for Attempt {
    type V = AttemptView;

    open spec fn view(&self) -> AttemptView {
        match self {
            Attempt::Rest => AttemptView::Rest,
            Attempt::Remind(k) => AttemptView::Remind(k@),
            Attempt::Speak => AttemptView::Speak,
        }
    }
}

impl Beat {
    /// Before the first beat.
    pub fn new() -> (r: Beat)
        ensures
            r@ == (BeatView { count: 0, held: None }),
    {
        Beat { count: 0, held: None }
    }

    /// One beat, which may have brought a reminder and saw the user in a state; `may_speak`
    /// tells whether the companion may speak of its own. On every fourth beat a reminder
    /// that is held is given, and else the companion speaks if it may; where the user is to
    /// be left alone then, the reminder is dropped and nothing is said.
    pub fn strike(
        &mut self,
        reminder: Option<ReminderKind>,
        state: ActivityState,
        may_speak: bool,
    ) -> (r: Attempt)
        ensures
            final(self)@ == old(self)@.struck(reminder_view(reminder)),
            r@ == old(self)@.attempt(reminder_view(reminder), state, may_speak),
    {
        if reminder.is_some() {
            self.held = reminder;
        }
        if self.count >= BEATS_PER_CHECK - 1 {
            self.count = 0;
        } else {
            self.count = self.count + 1;
            return Attempt::Rest;
        }
        let mut held: Option<ReminderKind> = None;
        core::mem::swap(&mut held, &mut self.held);
        if is_left_alone(state) {
            return Attempt::Rest;
        }
        match held {
            Some(k) => Attempt::Remind(k),
            None => if may_speak {
                Attempt::Speak
            } else {
                Attempt::Rest
            },
        }
    }
}

/// Whatever is held or falls due, nothing is tried with a user in private or away.
pub proof fn law_beat_never_disturbs(
    b: BeatView,
    reminder: Option<ReminderView>,
    state: ActivityState,
    may_speak: bool,
)
    requires
        state == ActivityState::Private || state == ActivityState::Away,
    ensures
        b.attempt(reminder, state, may_speak) == AttemptView::Rest,
{
}

/// What a beat sees: the reminder that it brings, the state of the user, and whether the
/// companion may speak of its own.
pub struct Stroke {
    pub reminder: Option<ReminderView>,
    pub state: ActivityState,
    pub may_speak: bool,
}

impl BeatView {
    /// After the first `n` of a sequence of beats.
    pub open spec fn after(self, strokes: Seq<Stroke>, n: int) -> BeatView
        decreases n,
    {
        if n <= 0 {
            self
        } else {
            self.after(strokes, n - 1).struck(strokes[n - 1].reminder)
        }
    }

    /// What is tried on beat `i` of a sequence of beats.
    pub open spec fn tried(self, strokes: Seq<Stroke>, i: int) -> AttemptView {
        let s = strokes[i];
        self.after(strokes, i).attempt(s.reminder, s.state, s.may_speak)
    }
}

/// The last reminder that the beats from `from` to before `upto` brought.
pub open spec fn last_due(strokes: Seq<Stroke>, from: int, upto: int) -> Option<ReminderView>
    decreases upto - from,
{
    if upto <= from {
        None
    } else {
        match strokes[upto - 1].reminder {
            Some(k) => Some(k),
            None => last_due(strokes, from, upto - 1),
        }
    }
}

proof fn lemma_beats(strokes: Seq<Stroke>, n: int)
    requires
        0 <= n <= strokes.len(),
    ensures
        ({
            let b = (BeatView { count: 0, held: None }).after(strokes, n);
            b.count == n % 4 && b.held == last_due(strokes, n - n % 4, n)
        }),
    decreases n,
{
    if n > 0 {
        lemma_beats(strokes, n - 1);
    }
}

/// Over any sequence of beats from the start, something is tried on every fourth beat
/// alone, and with nobody in private or away. It is the last reminder that the four beats
/// up to then brought; one that a newer one follows among them is dropped. Where they
/// brought none, it is a word of its own, if the companion may speak.
pub proof fn law_beats(strokes: Seq<Stroke>, i: int)
    requires
        0 <= i < strokes.len(),
    ensures
        (BeatView { count: 0, held: None }).tried(strokes, i) == if i % 4 != 3 || strokes[i].state
            == ActivityState::Private || strokes[i].state == ActivityState::Away {
            AttemptView::Rest
        } else {
            match last_due(strokes, i - 3, i + 1) {
                Some(k) => AttemptView::Remind(k),
                None => if strokes[i].may_speak {
                    AttemptView::Speak
                } else {
                    AttemptView::Rest
                },
            }
        },
{
    lemma_beats(strokes, i);
}

proof fn lemma_last_due(strokes: Seq<Stroke>, from: int, i: int, upto: int)
    requires
        0 <= from <= i < upto <= strokes.len(),
        strokes[i].reminder is Some,
        forall|m: int| i < m < upto ==> (#[trigger] strokes[m]).reminder is None,
    ensures
        last_due(strokes, from, upto) == strokes[i].reminder,
    decreases upto,
{
    if i + 1 < upto {
        assert(strokes[upto - 1].reminder is None);
        lemma_last_due(strokes, from, i, upto - 1);
    }
}

/// A reminder waits three beats at most: it is given on the next fourth beat, unless a
/// newer one takes its place before, or the user is in private or away on that beat.
pub proof fn law_newest_reminder_is_given(strokes: Seq<Stroke>, i: int, j: int)
    requires
        0 <= i <= j < strokes.len(),
        j - i <= 3,
        j % 4 == 3,
        strokes[i].reminder is Some,
        forall|m: int| i < m <= j ==> (#[trigger] strokes[m]).reminder is None,
        !left_alone(strokes[j].state),
    ensures
        (BeatView { count: 0, held: None }).tried(strokes, j) == AttemptView::Remind(
            strokes[i].reminder->0,
        ),
{
    law_beats(strokes, j);
    lemma_last_due(strokes, j - 3, i, j + 1);
}

/// What is said on an attempt of its own.
#[derive(Debug, Clone, Copy, PartialEq, Eq, Structural)]
pub enum Source {
    /// The reminder.
    Reminder,
    /// A topic that waits.
    Topic,
    /// A remark on the moment.
    Remark,
}

/// What is said: a reminder before a topic, and a topic before a remark.
pub fn source_of(is_reminder: bool, has_topic: bool) -> (r: Source)
    ensures
        r == if is_reminder {
            Source::Reminder
        } else if has_topic {
            Source::Topic
        } else {
            Source::Remark
        },
{
    if is_reminder {
        Source::Reminder
    } else if has_topic {
        Source::Topic
    } else {
        Source::Remark
    }
}

/// Whether a picture of the screen is taken before something is said: not for a reminder.
pub fn needs_screen(source: Source) -> (r: bool)
    ensures
        r == (source != Source::Reminder),
{
    match source {
        Source::Reminder => false,
        Source::Topic | Source::Remark => true,
    }
}

/// Whether a topic counts as brought up, by what the model made of it: only once there are
/// words for it.
pub fn uses_topic(source: Source, said: &Result<Option<String>, String>) -> (r: bool)
    ensures
        r == (source == Source::Topic && said matches Ok(Some(text))),
{
    match (source, said) {
        (Source::Topic, Ok(Some(_))) => true,
        _ => false,
    }
}

/// Whether the companion is to be brief: it has not been answered lately.
pub fn is_restrained(proactive: &ProactiveState) -> (r: bool)
    ensures
        r == (proactive@.level >= 1),
{
    proactive.current_backoff_level() >= 1
}

/// Lets a text be said at `now`, unless it repeats one; tells whether it is said.
pub fn deliver(proactive: &mut ProactiveState, text: &str, now: Seconds) -> (r: bool)
    ensures
        r == !old(proactive)@.repeats(text@),
        final(proactive)@ == if r {
            old(proactive)@.delivered(text@, now)
        } else {
            old(proactive)@
        },
{
    if proactive.is_repeat(text) {
        return false;
    }
    proactive.record_delivery_at(text, now);
    true
}

// ---------------------------------------------------------------------------
// The state
// ---------------------------------------------------------------------------

/// All that the companion keeps while it runs.
pub struct AppState {
    pub memory: MemoryStore,
    pub activity: ActivityStateMachine,
    pub activity_snapshot: Option<ActivitySnapshot>,
    pub proactive: ProactiveState,
    pub topic: TopicPool,
    pub open_threads: OpenThreadsCache,
    pub activity_guess_cache: GuessCache,
    /// When a picture of the screen was taken, and where it is.
    pub proactive_shot: Option<(Seconds, String)>,
    pub beat: Beat,
}

impl AppState {
    /// The state at the start, with what was stored.
    pub fn new(memory: MemoryStore, topic: TopicPool, now: Seconds) -> (r: AppState)
        ensures
            r.memory@ == memory@,
            r.topic@ == topic@,
            r.activity@ == MachineView::fresh(now),
            r.activity_snapshot is None,
            r.proactive@ == ProactiveView::fresh(),
            r.open_threads@ == ThreadsView::fresh(),
            r.activity_guess_cache@.signature.len() == 0,
            r.activity_guess_cache@.guess.len() == 0,
            r.activity_guess_cache@.at.micros == 0,
            r.proactive_shot is None,
            r.beat@ == (BeatView { count: 0, held: None }),
    {
        AppState {
            memory,
            activity: ActivityStateMachine::new_at(now),
            activity_snapshot: None,
            proactive: ProactiveState::new(),
            topic,
            open_threads: OpenThreadsCache::new(),
            activity_guess_cache: GuessCache::new(),
            proactive_shot: None,
            beat: Beat::new(),
        }
    }
}

/// What the machine knows after a sample.
pub open spec fn sampled(m: MachineView, sig: SystemSignals) -> MachineView {
    m.observed(
        sig.idle_seconds,
        sig.timestamp_secs,
        category_of(sig.process_name@, sig.window_title@),
        app_name_of(sig.process_name@, sig.window_title@),
    )
}

/// The snapshot after a sample, at `now`.
pub open spec fn snapshot_after(m: MachineView, sig: SystemSignals, now: Now) -> SnapshotView {
    sampled(m, sig).snapshot(now.moment(), now.wall.second / 3600, now.weekday)
}

impl SnapshotView {
    /// The snapshot with a description of the activity with this signature.
    pub open spec fn described(self, guess: Seq<char>, signature: Seq<char>) -> SnapshotView {
        SnapshotView { activity_guess: guess, guess_signature: signature, ..self }
    }
}

/// Keeps a description given at `now` of the activity with this signature, in the cache
/// and in the snapshot.
pub fn keep_guess(app: &mut AppState, signature: &str, guess: &str, now: Seconds)
    ensures
        final(app).activity_guess_cache@ == (GuessView {
            signature: signature@,
            at: now,
            guess: guess@,
        }),
        match old(app).activity_snapshot {
            Some(s) => final(app).activity_snapshot matches Some(t) && t@ == s@.described(
                guess@,
                signature@,
            ),
            None => final(app).activity_snapshot is None,
        },
        final(app).memory == old(app).memory,
        final(app).activity == old(app).activity,
        final(app).proactive == old(app).proactive,
        final(app).topic == old(app).topic,
        final(app).open_threads == old(app).open_threads,
        final(app).proactive_shot == old(app).proactive_shot,
        final(app).beat == old(app).beat,
{
    app.activity_guess_cache.keep(signature, guess, now);
    match app.activity_snapshot.take() {
        Some(mut snap) => {
            snap.activity_guess = guess.to_string();
            snap.guess_signature = signature.to_string();
            app.activity_snapshot = Some(snap);
        },
        None => {},
    }
}

/// One beat at `now`, by a sample of the system: the activity is judged, a reminder may
/// fall due, and it is decided what is tried. The snapshot carries the cached description
/// as long as the signature of the activity is the same. Gives what is tried, which is
/// nothing with a user in private or away, and the signature if the activity is to be
/// described anew.
pub fn pulse(app: &mut AppState, signals: &SystemSignals, now: &Now) -> (r: (
    Attempt,
    Option<String>,
))
    ensures
        ({
            let machine = sampled(old(app).activity@, *signals).moved(now.moment());
            let snap = snapshot_after(old(app).activity@, *signals, *now);
            let was = old(app).proactive@;
            let reminder = was.reminder(snap.state, snap.active_window, now.moment());
            let speaks = was.ticked(snap.state, snap.active_window, now.moment());
            let may_speak = speaks.may_speak(
                snap,
                signals.idle_seconds,
                now.moment(),
                now.dice(),
            );
            let cache = old(app).activity_guess_cache@;
            let cached = cache.claimed(machine.signature(), now.moment());
            &&& final(app).activity@ == machine
            &&& final(app).activity_snapshot matches Some(s) && s@ == snap.described(
                cached.guess,
                cached.signature,
            )
            &&& final(app).proactive@ == speaks
            &&& final(app).beat@ == old(app).beat@.struck(reminder)
            &&& r.0@ == old(app).beat@.attempt(reminder, snap.state, may_speak)
            &&& if cache.stale(machine.signature(), now.moment()) {
                r.1 matches Some(t) && t@ == machine.signature()
            } else {
                r.1 is None
            }
            &&& final(app).activity_guess_cache@ == cached
            &&& cached.signature == machine.signature()
        }),
        final(app).activity_snapshot matches Some(s) && (s@.state == ActivityState::Private
            || s@.state == ActivityState::Away) ==> r.0@ is Rest,
        final(app).memory == old(app).memory,
        final(app).topic == old(app).topic,
        final(app).open_threads == old(app).open_threads,
        final(app).proactive_shot == old(app).proactive_shot,
{
    app.activity.update_signals(signals);
    let mut snap = app.activity.snapshot_at(now.secs(), now.wall.second / 3600, now.weekday);
    let reminder = app.proactive.tick_at(&snap, now.secs());
    let may_speak = app.proactive.should_speak_at(
        &snap,
        signals.idle_seconds,
        now.secs(),
        now.roll(),
    );
    let attempt = app.beat.strike(reminder, snap.state, may_speak);
    let signature = app.activity.guess_signature();
    let stale = app.activity_guess_cache.claim(signature.as_str(), now.secs());
    snap.activity_guess = app.activity_guess_cache.guess.as_str().to_string();
    snap.guess_signature = signature.as_str().to_string();
    app.activity_snapshot = Some(snap);
    if stale {
        (attempt, Some(signature))
    } else {
        (attempt, None)
    }
}

/// On a beat with a sensitive window in front, or without input for long, nothing is tried,
/// whatever the machine, the reminders and the beat were before.
pub proof fn law_sensitive_window_is_left_alone(
    m: MachineView,
    p: ProactiveView,
    b: BeatView,
    sig: SystemSignals,
    now: Now,
)
    requires
        category_of(sig.process_name@, sig.window_title@) == WindowCategory::Private
            || sig.idle_seconds >= AWAY_IDLE_SECONDS,
    ensures
        ({
            let snap = snapshot_after(m, sig, now);
            let t = now.moment();
            let may_speak = p.ticked(snap.state, snap.active_window, t).may_speak(
                snap,
                sig.idle_seconds,
                t,
                now.dice(),
            );
            b.attempt(p.reminder(snap.state, snap.active_window, t), snap.state, may_speak)
                == AttemptView::Rest
        }),
{
}

/// The cache after looks at one activity at these times, from the first to the last.
pub open spec fn looked(c: GuessView, signature: Seq<char>, times: Seq<Seconds>) -> GuessView
    decreases times.len(),
{
    if times.len() == 0 {
        c
    } else {
        looked(c, signature, times.drop_last()).claimed(signature, times.last())
    }
}

/// A description that was kept is in the snapshot of every later beat, as long as the
/// activity keeps its signature.
pub proof fn law_description_is_carried(
    snap: SnapshotView,
    signature: Seq<char>,
    guess: Seq<char>,
    kept: Seconds,
    times: Seq<Seconds>,
)
    ensures
        ({
            let cached = looked((GuessView { signature, at: kept, guess }), signature, times);
            let shown = snap.described(cached.guess, cached.signature);
            shown.activity_guess == guess && shown.guess_signature == signature
        }),
    decreases times.len(),
{
    if times.len() > 0 {
        law_description_is_carried(snap, signature, guess, kept, times.drop_last());
    }
}

} // verus!
