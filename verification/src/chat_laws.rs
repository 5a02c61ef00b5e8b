//! What the talk with the models promises: what a request holds, what is read from a reply,
//! and which settings count.

use crate::chat::{
    briefed, content_of, fenced, message, picture_and_text, quote_marks, remark, request, unfenced,
    unfenced_lines, whole_number,
};
use crate::clock::{
    local_time, quotient, span_days, wall_days, wall_minutes, wall_nanos, wall_read, Wall,
};
use crate::config::{
    chat_model_of, config_read, key_of, memory_model_of, setting_of, vision_model_of,
};
use crate::json::{find_field, json_read, JsonView};
use crate::memory::turn_line;
use crate::memory_compress::messages_text;
use crate::score::rank_of;
use crate::text::{
    drop_back, drop_front, first_from, is_white_spec, last_at, lines_of, occurs_at, trimmed,
    trimmed_of, without_return,
};
use crate::text_laws::{law_text_stands_in, law_trimmed, stands_at_place, stands_in};
use vstd::prelude::*;

verus! {

// ---------------------------------------------------------------------------
// Documents
// ---------------------------------------------------------------------------

/// A field is found by its name, and of several the first.
pub proof fn law_field(fields: Seq<(Seq<char>, JsonView)>, key: Seq<char>, k: int)
    requires
        0 <= k < fields.len(),
        fields[k].0 == key,
        forall|i: int| 0 <= i < k ==> (#[trigger] fields[i]).0 != key,
    ensures
        find_field(fields, key) == Some(fields[k].1),
    decreases fields.len(),
{
    if k > 0 {
        let rest = fields.drop_first();
        assert(fields[0].0 != key);
        assert forall|i: int| 0 <= i < k - 1 implies (#[trigger] rest[i]).0 != key by {
            assert(fields[i + 1].0 != key);
        }
        law_field(rest, key, k - 1);
    }
}

/// A field that there is not is not found.
pub proof fn law_no_field(fields: Seq<(Seq<char>, JsonView)>, key: Seq<char>)
    requires
        forall|i: int| 0 <= i < fields.len() ==> (#[trigger] fields[i]).0 != key,
    ensures
        find_field(fields, key) is None,
    decreases fields.len(),
{
    if fields.len() > 0 {
        let rest = fields.drop_first();
        assert forall|i: int| 0 <= i < rest.len() implies (#[trigger] rest[i]).0 != key by {
            assert(fields[i + 1].0 != key);
        }
        law_no_field(rest, key);
    }
}

// ---------------------------------------------------------------------------
// Requests
// ---------------------------------------------------------------------------

/// A request holds the model, the messages, that the reply comes in one piece, the greatest
/// length if there is one, and that the reply is to be a document, if it is.
pub proof fn law_request(
    model: Seq<char>,
    messages: Seq<JsonView>,
    max_tokens: Option<u32>,
    json_mode: bool,
)
    ensures
        ({
            let r = request(model, messages, max_tokens, json_mode);
            &&& r.text_at("model"@) == Some(model)
            &&& r.items_at("messages"@) == Some(messages)
            &&& r.get("stream"@) == Some(JsonView::Bool(false))
            &&& max_tokens matches Some(n) ==> r.integer_at("max_tokens"@) == Some(n as i64)
            &&& max_tokens is None ==> r.get("max_tokens"@) is None
            &&& json_mode ==> (r.get("response_format"@) matches Some(f) && f.text_at("type"@)
                == Some("json_object"@))
            &&& !json_mode ==> r.get("response_format"@) is None
        }),
{
    reveal_strlit("model");
    reveal_strlit("messages");
    reveal_strlit("stream");
    reveal_strlit("max_tokens");
    reveal_strlit("response_format");
    assert("model"@.len() == 5 && "messages"@.len() == 8 && "stream"@.len() == 6
        && "max_tokens"@.len() == 10 && "response_format"@.len() == 15);
    let fields = request(model, messages, max_tokens, json_mode)->Record_0;
    assert(fields[0].0 == "model"@ && fields[1].0 == "messages"@ && fields[2].0 == "stream"@);
    law_field(fields, "model"@, 0);
    law_field(fields, "messages"@, 1);
    law_field(fields, "stream"@, 2);
    if max_tokens is Some {
        assert(fields[3].0 == "max_tokens"@);
        law_field(fields, "max_tokens"@, 3);
        if json_mode {
            assert(fields[4].0 == "response_format"@);
            law_field(fields, "response_format"@, 4);
        } else {
            law_no_field(fields, "response_format"@);
        }
    } else {
        law_no_field(fields, "max_tokens"@);
        if json_mode {
            assert(fields[3].0 == "response_format"@);
            law_field(fields, "response_format"@, 3);
        } else {
            law_no_field(fields, "response_format"@);
        }
    }
    reveal_with_fuel(find_field, 2);
}

/// A message holds who speaks and what is said.
pub proof fn law_message(role: Seq<char>, content: JsonView)
    ensures
        message(role, content).text_at("role"@) == Some(role),
        message(role, content).get("content"@) == Some(content),
{
    reveal_strlit("role");
    reveal_strlit("content");
    assert("role"@.len() == 4 && "content"@.len() == 7);
    let fields = message(role, content)->Record_0;
    law_field(fields, "role"@, 0);
    law_field(fields, "content"@, 1);
}

/// A briefing comes before what is asked.
pub proof fn law_briefed(system: Seq<char>, user: JsonView)
    ensures
        briefed(system, user).len() == 2,
        briefed(system, user)[0].text_at("role"@) == Some("system"@),
        briefed(system, user)[0].text_at("content"@) == Some(system),
        briefed(system, user)[1].text_at("role"@) == Some("user"@),
        briefed(system, user)[1].get("content"@) == Some(user),
{
    law_message("system"@, JsonView::Text(system));
    law_message("user"@, user);
}

/// A picture comes before the words on it, as a JPEG in the address.
pub proof fn law_picture_and_text(b64: Seq<char>, text: Seq<char>)
    ensures
        ({
            let parts = picture_and_text(b64, text)->List_0;
            &&& picture_and_text(b64, text) is List && parts.len() == 2
            &&& parts[0].text_at("type"@) == Some("image_url"@)
            &&& parts[0].get("image_url"@) matches Some(u) && u.text_at("url"@) == Some(
                "data:image/jpeg;base64,"@ + b64,
            )
            &&& parts[1].text_at("type"@) == Some("text"@)
            &&& parts[1].text_at("text"@) == Some(text)
        }),
{
    reveal_strlit("type");
    reveal_strlit("image_url");
    reveal_strlit("text");
    assert("type"@.len() == 4 && "image_url"@.len() == 9 && "text"@.len() == 4);
    assert("type"@[1] == 'y' && "text"@[1] == 'e');
    let parts = picture_and_text(b64, text)->List_0;
    law_field(parts[0]->Record_0, "type"@, 0);
    law_field(parts[0]->Record_0, "image_url"@, 1);
    law_field(parts[1]->Record_0, "type"@, 0);
    law_field(parts[1]->Record_0, "text"@, 1);
    reveal_with_fuel(find_field, 2);
}

// ---------------------------------------------------------------------------
// Replies
// ---------------------------------------------------------------------------

/// What a reply says is the content of the message of its first choice.
pub proof fn law_content(body: JsonView, choices: Seq<JsonView>, said: JsonView)
    requires
        body.get("choices"@) == Some(JsonView::List(choices)),
    ensures
        choices.len() > 0 && choices[0].get("message"@) == Some(said) ==> content_of(body)
            == said.text_at("content"@),
        choices.len() == 0 ==> content_of(body) is None,
        choices.len() > 0 && choices[0].get("message"@) is None ==> content_of(body) is None,
{
}

/// Whether a character is a quotation mark that is taken off a remark.
pub open spec fn is_quote(c: char) -> bool {
    c == '"' || c == '「' || c == '」' || c == '“' || c == '”'
}

proof fn lemma_quotes(c: char)
    ensures
        quote_marks().contains(c) <==> is_quote(c),
{
    let q = quote_marks();
    assert(q.len() == 5);
    assert(q[0] == '"' && q[1] == '「' && q[2] == '」' && q[3] == '“' && q[4] == '”');
    if q.contains(c) {
        let k = choose|k: int| 0 <= k < q.len() && q[k] == c;
    }
}

proof fn lemma_drop_front(a: Seq<char>, t: Seq<char>, p: spec_fn(char) -> bool)
    requires
        forall|i: int| 0 <= i < a.len() ==> p(#[trigger] a[i]),
        t.len() > 0,
        !p(t[0]),
    ensures
        drop_front(a + t, p) == t,
    decreases a.len(),
{
    if a.len() == 0 {
        assert(a + t =~= t);
    } else {
        assert(p(a[0]));
        assert((a + t).drop_first() =~= a.drop_first() + t);
        assert forall|i: int| 0 <= i < a.drop_first().len() implies p(
            #[trigger] a.drop_first()[i],
        ) by {
            assert(p(a[i + 1]));
        }
        lemma_drop_front(a.drop_first(), t, p);
    }
}

proof fn lemma_drop_back(t: Seq<char>, b: Seq<char>, p: spec_fn(char) -> bool)
    requires
        forall|i: int| 0 <= i < b.len() ==> p(#[trigger] b[i]),
        t.len() > 0,
        !p(t.last()),
    ensures
        drop_back(t + b, p) == t,
    decreases b.len(),
{
    if b.len() == 0 {
        assert(t + b =~= t);
    } else {
        assert(p(b[b.len() - 1]));
        assert((t + b).drop_last() =~= t + b.drop_last());
        assert forall|i: int| 0 <= i < b.drop_last().len() implies p(#[trigger] b.drop_last()[i]) by {
            assert(p(b[i]));
        }
        lemma_drop_back(t, b.drop_last(), p);
    }
}

/// A remark is what the reply says without white space and quotation marks round it.
pub proof fn law_remark(
    white: Seq<char>,
    open: Seq<char>,
    t: Seq<char>,
    close: Seq<char>,
    end: Seq<char>,
)
    requires
        forall|i: int| 0 <= i < white.len() ==> is_white_spec(#[trigger] white[i]),
        forall|i: int| 0 <= i < end.len() ==> is_white_spec(#[trigger] end[i]),
        forall|i: int| 0 <= i < open.len() ==> is_quote(#[trigger] open[i]),
        forall|i: int| 0 <= i < close.len() ==> is_quote(#[trigger] close[i]),
        t.len() > 0,
        !is_quote(t[0]) && !is_white_spec(t[0]),
        !is_quote(t.last()) && !is_white_spec(t.last()),
    ensures
        !stands_in(open + t + close, "[PASS]"@) ==> remark(white + (open + t + close) + end)
            == Some(t),
        stands_in(open + t + close, "[PASS]"@) ==> remark(
            white + (open + t + close) + end,
        ) is None,
{
    let said = open + t + close;
    let p = |c: char| quote_marks().contains(c);
    assert(said.len() > 0);
    assert(!is_white_spec(said[0])) by {
        if open.len() > 0 {
            assert(is_quote(open[0]));
        }
    }
    assert(!is_white_spec(said.last())) by {
        if close.len() > 0 {
            assert(is_quote(close[close.len() - 1]));
        }
    }
    law_trimmed(white, said, end);
    assert forall|i: int| 0 <= i < open.len() implies p(#[trigger] open[i]) by {
        lemma_quotes(open[i]);
    }
    assert forall|i: int| 0 <= i < close.len() implies p(#[trigger] close[i]) by {
        lemma_quotes(close[i]);
    }
    lemma_quotes(t[0]);
    lemma_quotes(t.last());
    assert(said =~= open + (t + close));
    assert((t + close)[0] == t[0]);
    lemma_drop_front(open, t + close, p);
    lemma_drop_back(t, close, p);
    assert(trimmed_of(said, quote_marks()) == t);
    law_trimmed(Seq::empty(), t, Seq::empty());
    assert(Seq::<char>::empty() + t + Seq::<char>::empty() =~= t);
    law_text_stands_in(said, "[PASS]"@, Seq::empty(), Seq::empty());
}

/// Where there is nothing but white space, there is no remark.
pub proof fn law_no_remark(content: Seq<char>)
    requires
        trimmed(content).len() == 0,
    ensures
        remark(content) is None,
{
}

/// An answer without a fence is taken as it is, without white space round it.
pub proof fn law_no_fence(raw: Seq<char>)
    requires
        !stands_in(trimmed(raw), "```"@),
    ensures
        unfenced(raw) == trimmed(raw),
        unfenced_lines(raw) == trimmed(raw),
{
    let t = trimmed(raw);
    let f = "```"@;
    crate::text::lemma_first_from(t, f, 0);
    if first_from(t, f, 0) is Some {
        let i = first_from(t, f, 0)->0;
        assert(occurs_at(t, f, i));
        assert(stands_at_place(t, f, i));
    }
    if f.is_prefix_of(t) {
        assert(t.subrange(0, f.len() as int) =~= f);
        assert(stands_at_place(t, f, 0));
    }
}

/// Of an answer in a fence what stands between the lines of the fence is taken.
pub proof fn law_fence(tag: Seq<char>, body: Seq<char>)
    requires
        !stands_in(tag, "\n"@),
        !stands_in(body, "`"@),
    ensures
        fenced("```"@ + tag + "\n"@ + body + "```"@) == Some(trimmed(body)),
{
    let f = "```"@;
    let nl = "\n"@;
    reveal_strlit("```");
    reveal_strlit("\n");
    reveal_strlit("`");
    let t = f + tag + nl + body + f;
    assert(t.subrange(0, 3) =~= f);
    assert(occurs_at(t, f, 0));
    assert(first_from(t, f, 0) == Some(0int));
    let after = t.skip(3);
    assert(after =~= tag + nl + (body + f));
    crate::text::lemma_first_from(after, nl, 0);
    assert(after.subrange(tag.len() as int, tag.len() as int + 1) =~= nl);
    assert(occurs_at(after, nl, tag.len() as int));
    let e = first_from(after, nl, 0);
    assert(e is Some) by {
        if e is None {
            assert(!occurs_at(after, nl, tag.len() as int));
        }
    }
    assert(e->0 == tag.len()) by {
        if e->0 < tag.len() {
            assert(occurs_at(after, nl, e->0));
            assert(tag.subrange(e->0, e->0 + 1) =~= after.subrange(e->0, e->0 + 1));
            assert(stands_at_place(tag, nl, e->0));
        }
    }
    let rest = after.skip(e->0 + 1);
    assert(rest =~= body + f);
    assert(rest.subrange(body.len() as int, body.len() as int + 3) =~= f);
    assert(occurs_at(rest, f, body.len() as int));
    lemma_last_at(rest, f, body.len() as int);
    assert(rest.take(body.len() as int) =~= body);
}

proof fn lemma_last_at(s: Seq<char>, pat: Seq<char>, i: int)
    requires
        pat.len() > 0,
        occurs_at(s, pat, i),
        i + pat.len() == s.len(),
    ensures
        last_at(s, pat) == Some(i),
{
    lemma_last_before(s, pat, i, s.len() as int + 1);
}

proof fn lemma_last_before(s: Seq<char>, pat: Seq<char>, i: int, upto: int)
    requires
        pat.len() > 0,
        occurs_at(s, pat, i),
        i + pat.len() == s.len(),
        i < upto,
    ensures
        crate::text::last_before(s, pat, upto) == Some(i),
    decreases upto,
{
    if upto - 1 > i {
        assert(!occurs_at(s, pat, upto - 1));
        lemma_last_before(s, pat, i, upto - 1);
    }
}

/// A text has the lines that its line feeds make, each without a carriage return at its end.
pub proof fn law_lines(x: Seq<char>, y: Seq<char>)
    requires
        forall|i: int| 0 <= i < x.len() ==> #[trigger] x[i] != '\n',
    ensures
        lines_of(x + seq!['\n'] + y) == seq![without_return(x)] + lines_of(y),
        x.len() > 0 ==> lines_of(x) == seq![x],
        lines_of(Seq::empty()) == Seq::<Seq<char>>::empty(),
        without_return(x.push('\r')) == x,
        x.len() > 0 && x.last() != '\r' ==> without_return(x) == x,
{
    let nl = seq!['\n'];
    let s = x + nl + y;
    crate::text::lemma_first_from(s, nl, 0);
    assert(s.subrange(x.len() as int, x.len() as int + 1) =~= nl);
    assert(occurs_at(s, nl, x.len() as int));
    let e = first_from(s, nl, 0);
    assert(e is Some) by {
        if e is None {
            assert(!occurs_at(s, nl, x.len() as int));
        }
    }
    assert(e->0 == x.len()) by {
        if e->0 < x.len() {
            assert(occurs_at(s, nl, e->0));
            assert(s.subrange(e->0, e->0 + 1)[0] == x[e->0]);
        }
    }
    assert(s.take(x.len() as int) =~= x);
    assert(s.skip(x.len() as int + 1) =~= y);
    crate::text::lemma_first_from(x, nl, 0);
    if first_from(x, nl, 0) is Some {
        let i = first_from(x, nl, 0)->0;
        assert(occurs_at(x, nl, i));
        assert(x.subrange(i, i + 1)[0] == x[i]);
    }
    assert(x.push('\r').drop_last() =~= x);
}

// ---------------------------------------------------------------------------
// Settings
// ---------------------------------------------------------------------------

/// A setting is what the settings say, without white space round it; what is missing, blank
/// or no text has its default, and so has everything where the settings cannot be read.
pub proof fn law_setting(content: Seq<char>, key: Seq<char>, default: Seq<char>)
    ensures
        setting_of(None, key, default) == default,
        config_read(content) is Err ==> setting_of(Some(content), key, default) == default,
        config_read(content) matches Ok(cfg) ==> {
            &&& cfg.text_at(key) is None ==> setting_of(Some(content), key, default) == default
            &&& cfg.text_at(key) matches Some(s) ==> (trimmed(s).len() > 0 ==> setting_of(
                Some(content),
                key,
                default,
            ) == trimmed(s)) && (trimmed(s).len() == 0 ==> setting_of(Some(content), key, default)
                == default)
        },
{
}

/// The models for talk, for pictures and for the memory are each set by its own name.
pub proof fn law_models(content: Option<Seq<char>>)
    ensures
        chat_model_of(content) == setting_of(content, "chat_model"@, "qwen3.6-plus"@),
        vision_model_of(content) == setting_of(content, "vision_model"@, "qwen3-vl-plus"@),
        memory_model_of(content) == setting_of(content, "memory_model"@, "qwen-max"@),
{
}

/// Settings are read without the byte order mark before them.
pub proof fn law_settings_read(content: Seq<char>)
    requires
        content.len() > 0,
        content[0] != '\u{feff}',
    ensures
        config_read(content) == json_read(content),
        config_read(seq!['\u{feff}'] + content) == json_read(content),
{
    let p = |c: char| seq!['\u{feff}'].contains(c);
    let mark = seq!['\u{feff}'];
    assert(mark[0] == '\u{feff}');
    assert(p('\u{feff}'));
    assert(!p(content[0])) by {
        if p(content[0]) {
            let k = choose|k: int| 0 <= k < mark.len() && mark[k] == content[0];
        }
    }
    lemma_drop_front(mark, content, p);
}

/// The key is that of the environment, if it is set and not empty, and else that of the
/// settings; where there are none, or none that can be read, or no key in them, it is said
/// what is missing.
pub proof fn law_key(env: Option<Seq<char>>, content: Seq<char>)
    ensures
        env is Some && env->0.len() > 0 ==> key_of(env, Some(content)) == Ok::<
            Seq<char>,
            Seq<char>,
        >(env->0) && key_of(env, None) == Ok::<Seq<char>, Seq<char>>(env->0),
        env is None || env->0.len() == 0 ==> {
            &&& key_of(env, None) == Err::<Seq<char>, Seq<char>>("未找到 config.json"@)
            &&& config_read(content) matches Err(e) ==> key_of(env, Some(content)) == Err::<
                Seq<char>,
                Seq<char>,
            >("config.json 解析失败: "@ + e)
            &&& config_read(content) matches Ok(cfg) ==> match cfg.text_at("qianwen_api_key"@) {
                Some(k) => key_of(env, Some(content)) == Ok::<Seq<char>, Seq<char>>(k),
                None => key_of(env, Some(content)) == Err::<Seq<char>, Seq<char>>(
                    "config.json 缺少 qianwen_api_key"@,
                ),
            }
        },
{
}

// ---------------------------------------------------------------------------
// The conversation for a summary
// ---------------------------------------------------------------------------

/// A summary is asked of all turns that say something, in their order, a line for each.
pub proof fn law_messages(turns: Seq<JsonView>, m: JsonView)
    ensures
        messages_text(Seq::empty()).len() == 0,
        trimmed(m.text_or("content"@, ""@)).len() == 0 ==> messages_text(turns.push(m))
            == messages_text(turns),
        trimmed(m.text_or("content"@, ""@)).len() > 0 ==> messages_text(turns.push(m))
            == messages_text(turns) + turn_line(m),
{
    assert(turns.push(m).drop_last() =~= turns);
}

// ---------------------------------------------------------------------------
// Time
// ---------------------------------------------------------------------------

/// Between two moments of the wall clock without a leap second, in seconds: the days and the
/// seconds of the day; and the whole days and the whole minutes are rounded towards zero.
pub proof fn law_wall_time(then: Wall, now: Wall)
    requires
        then.frac == 0,
        now.frac == 0,
    ensures
        ({
            let seconds = (now.day - then.day) * 86_400 + (now.second - then.second);
            &&& seconds >= 0 ==> wall_days(then, now) * 86_400 <= seconds < (wall_days(then, now)
                + 1) * 86_400
            &&& seconds >= 0 ==> wall_minutes(then, now) * 60 <= seconds < (wall_minutes(then, now)
                + 1) * 60
            &&& seconds < 0 ==> (wall_days(then, now) - 1) * 86_400 < seconds <= wall_days(
                then,
                now,
            ) * 86_400
            &&& seconds < 0 ==> (wall_minutes(then, now) - 1) * 60 < seconds <= wall_minutes(
                then,
                now,
            ) * 60
        }),
{
    let seconds = (now.day - then.day) * 86_400 + (now.second - then.second);
    assert(wall_nanos(then, now) == seconds * 1_000_000_000);
    assert(quotient(wall_nanos(then, now), 1_000_000_000) == seconds);
}

/// A time is read with a blank between date and time, or else with a T; and the days between
/// two times are none where one is missing.
pub proof fn law_local_time(text: Seq<char>, then: Option<Wall>, now: Option<Wall>)
    ensures
        wall_read(text, "%Y-%m-%d %H:%M:%S"@) matches Some(w) ==> local_time(text) == Some(w),
        wall_read(text, "%Y-%m-%d %H:%M:%S"@) is None ==> local_time(text) == wall_read(
            text,
            "%Y-%m-%dT%H:%M:%S"@,
        ),
        then is None || now is None ==> span_days(then, now) == 0,
        then is Some && now is Some ==> span_days(then, now) == wall_days(then->0, now->0),
{
}

/// Doubles are ranked by their size: those with the sign below zero, the greater the size
/// the lower; those without above it, the greater the size the higher; what is no number
/// is zero.
pub proof fn law_rank(a: u64, b: u64)
    ensures
        a < b <= 0x7ff0_0000_0000_0000 ==> rank_of(a) < rank_of(b),
        0x8000_0000_0000_0000 <= a < b <= 0xfff0_0000_0000_0000 ==> rank_of(a) > rank_of(b),
        a <= 0x7ff0_0000_0000_0000 ==> rank_of(a) >= 0,
        0x8000_0000_0000_0000 <= a <= 0xfff0_0000_0000_0000 ==> rank_of(a) <= 0,
        0x7ff0_0000_0000_0000 < a < 0x8000_0000_0000_0000 || a > 0xfff0_0000_0000_0000 ==> rank_of(
            a,
        ) == 0,
        rank_of(0x3ff0_0000_0000_0000) == 0x3ff0_0000_0000_0000,
        rank_of(0) == 0,
{
}

/// Of an answer whose first line opens a fence the lines behind it are taken, without the
/// last one where it closes the fence.
pub proof fn law_fence_by_lines(raw: Seq<char>, tag: Seq<char>, y: Seq<char>)
    requires
        trimmed(raw) == "```"@ + tag + seq!['\n'] + y,
        forall|i: int| 0 <= i < tag.len() ==> #[trigger] tag[i] != '\n',
    ensures
        ({
            let ls = lines_of(y);
            let closed = ls.len() > 0 && "```"@.is_prefix_of(trimmed(ls.last()));
            &&& closed ==> unfenced_lines(raw) == crate::text::joined(ls.drop_last(), "\n"@)
            &&& !closed ==> unfenced_lines(raw) == crate::text::joined(ls, "\n"@)
        }),
{
    let f = "```"@;
    reveal_strlit("```");
    let first = f + tag;
    let t = first + seq!['\n'] + y;
    assert forall|i: int| 0 <= i < first.len() implies #[trigger] first[i] != '\n' by {
        if i >= 3 {
            assert(tag[i - 3] != '\n');
        }
    }
    law_lines(first, y);
    assert(f =~= t.subrange(0, 3));
    assert(f.is_prefix_of(t));
    assert(lines_of(t).skip(1) =~= lines_of(y));
}

/// What a document is, it is read as: a text as a text, a flag as a flag, a whole number as
/// that number, a list by its items; and nothing is read as what it is not.
pub proof fn law_values(v: JsonView, n: int)
    requires
        i64::MIN <= n <= i64::MAX,
    ensures
        v.text() is Some <==> v is Text,
        v matches JsonView::Text(t) ==> v.text() == Some(t),
        v.truth() is Some <==> v is Bool,
        v matches JsonView::Bool(b) ==> v.truth() == Some(b),
        v.items() is Some <==> v is List,
        v matches JsonView::List(items) ==> v.items() == Some(items),
        whole_number(n).integer() == Some(n as i64),
        !(v is Number) ==> v.integer() is None,
        !(v is Record) ==> forall|key: Seq<char>| #[trigger] v.get(key) is None,
{
}

} // verus!
