//! Requests to a chat model and what is read out of its replies.

use crate::json::{field_views, json_views, lemma_json_view, same_str, Json, JsonView, Number};
use crate::text::{
    chars_of, contains, find_from, find_last, first_from, has_text, is_empty, join, joined,
    last_at, lines, lines_of, starts_with, string_between, trim, trim_of, trimmed, trimmed_of,
    views,
};
use vstd::prelude::*;

verus! {

// ---------------------------------------------------------------------------
// Requests
// ---------------------------------------------------------------------------

/// A whole number as a document.
pub open spec fn whole_number(n: int) -> JsonView {
    JsonView::Number(
        Number {
            unsigned: if 0 <= n <= u64::MAX {
                Some(n as u64)
            } else {
                None
            },
            signed: if i64::MIN <= n <= i64::MAX {
                Some(n as i64)
            } else {
                None
            },
            double: None,
        },
    )
}

/// A whole number as a document.
pub fn number(n: i64) -> (r: Json)
    ensures
        r@ == whole_number(n as int),
{
    Json::Number(
        Number {
            unsigned: if n >= 0 {
                Some(n as u64)
            } else {
                None
            },
            signed: Some(n),
            double: None,
        },
    )
}

/// A text as a document.
pub fn text_json(s: &str) -> (r: Json)
    ensures
        r@ == JsonView::Text(s@),
{
    Json::Text(s.to_string())
}

/// A record of one field.
pub open spec fn record1(key: Seq<char>, value: JsonView) -> JsonView {
    JsonView::Record(seq![(key, value)])
}

/// A record of two fields.
pub open spec fn record2(k0: Seq<char>, v0: JsonView, k1: Seq<char>, v1: JsonView) -> JsonView {
    JsonView::Record(seq![(k0, v0), (k1, v1)])
}

/// A record of one field.
pub fn one_field(key: &str, value: Json) -> (r: Json)
    ensures
        r@ == record1(key@, value@),
{
    let ghost v = value@;
    let r = Json::Record(vec![(key.to_string(), value)]);
    proof {
        lemma_json_view(r);
        assert(r@->Record_0 =~= seq![(key@, v)]);
    }
    r
}

/// A record of two fields.
pub fn two_fields(k0: &str, v0: Json, k1: &str, v1: Json) -> (r: Json)
    ensures
        r@ == record2(k0@, v0@, k1@, v1@),
{
    let ghost a = v0@;
    let ghost b = v1@;
    let r = Json::Record(vec![(k0.to_string(), v0), (k1.to_string(), v1)]);
    proof {
        lemma_json_view(r);
        assert(r@->Record_0 =~= seq![(k0@, a), (k1@, b)]);
    }
    r
}

/// A message of a role.
pub open spec fn message(role: Seq<char>, content: JsonView) -> JsonView {
    record2("role"@, JsonView::Text(role), "content"@, content)
}

/// A message of a role.
pub fn message_json(role: &str, content: Json) -> (r: Json)
    ensures
        r@ == message(role@, content@),
{
    two_fields("role", text_json(role), "content", content)
}

/// A JPEG picture in base64 as a URL that holds it.
pub open spec fn data_url(b64: Seq<char>) -> Seq<char> {
    "data:image/jpeg;base64,"@ + b64
}

/// A JPEG picture in base64 as a URL that holds it.
pub fn picture_url(b64: &str) -> (r: String)
    ensures
        r@ == data_url(b64@),
{
    let mut out = "data:image/jpeg;base64,".to_string();
    out.append(b64);
    out
}

/// A picture followed by a text, as the content of a message.
pub open spec fn picture_and_text(b64: Seq<char>, text: Seq<char>) -> JsonView {
    JsonView::List(
        seq![
            record2(
                "type"@,
                JsonView::Text("image_url"@),
                "image_url"@,
                record1("url"@, JsonView::Text(data_url(b64))),
            ),
            record2("type"@, JsonView::Text("text"@), "text"@, JsonView::Text(text)),
        ],
    )
}

/// A picture followed by a text, as the content of a message.
pub fn picture_content(b64: &str, text: &str) -> (r: Json)
    ensures
        r@ == picture_and_text(b64@, text@),
{
    let url = one_field("url", Json::Text(picture_url(b64)));
    let picture = two_fields("type", text_json("image_url"), "image_url", url);
    let words = two_fields("type", text_json("text"), "text", text_json(text));
    let ghost a = picture@;
    let ghost b = words@;
    let r = Json::List(vec![picture, words]);
    proof {
        lemma_json_view(r);
        assert(r@->List_0 =~= seq![a, b]);
    }
    r
}

/// The body of a request: the model, the messages, no streaming, and where they
/// are asked for a bound on the reply and a reply in JSON.
pub open spec fn request(
    model: Seq<char>,
    messages: Seq<JsonView>,
    max_tokens: Option<u32>,
    json_mode: bool,
) -> JsonView {
    JsonView::Record(
        seq![
            ("model"@, JsonView::Text(model)),
            ("messages"@, JsonView::List(messages)),
            ("stream"@, JsonView::Bool(false)),
        ] + match max_tokens {
            Some(n) => seq![("max_tokens"@, whole_number(n as int))],
            None => seq![],
        } + if json_mode {
            seq![("response_format"@, record1("type"@, JsonView::Text("json_object"@)))]
        } else {
            seq![]
        },
    )
}

/// The body of a request.
pub fn request_json(
    model: &str,
    messages: Vec<Json>,
    max_tokens: Option<u32>,
    json_mode: bool,
) -> (r: Json)
    ensures
        r@ == request(model@, json_views(messages@), max_tokens, json_mode),
{
    let ghost said = json_views(messages@);
    let list = Json::List(messages);
    proof {
        lemma_json_view(list);
    }
    let mut fields: Vec<(String, Json)> = vec![
        ("model".to_string(), text_json(model)),
        ("messages".to_string(), list),
        ("stream".to_string(), Json::Bool(false)),
    ];
    let ghost first = seq![
        ("model"@, JsonView::Text(model@)),
        ("messages"@, JsonView::List(said)),
        ("stream"@, JsonView::Bool(false)),
    ];
    proof {
        assert(field_views(fields@) =~= first);
    }
    let ghost mut second: Seq<(Seq<char>, JsonView)> = seq![];
    if let Some(n) = max_tokens {
        fields.push(("max_tokens".to_string(), number(n as i64)));
        proof {
            second = seq![("max_tokens"@, whole_number(n as int))];
        }
    }
    proof {
        assert(field_views(fields@) =~= first + second);
    }
    let ghost mut third: Seq<(Seq<char>, JsonView)> = seq![];
    if json_mode {
        let shape = one_field("type", text_json("json_object"));
        fields.push(("response_format".to_string(), shape));
        proof {
            third = seq![("response_format"@, record1("type"@, JsonView::Text("json_object"@)))];
        }
    }
    let r = Json::Record(fields);
    proof {
        lemma_json_view(r);
        assert(r@->Record_0 =~= first + second + third);
    }
    r
}

/// A request with one message of the user, answered in JSON.
pub open spec fn json_question(model: Seq<char>, prompt: Seq<char>) -> JsonView {
    request(model, seq![message("user"@, JsonView::Text(prompt))], None, true)
}

/// A request with one message of the user, answered in JSON.
pub fn json_question_request(model: &str, prompt: &str) -> (r: Json)
    ensures
        r@ == json_question(model@, prompt@),
{
    let ask = message_json("user", text_json(prompt));
    let ghost said = ask@;
    let messages = vec![ask];
    proof {
        assert(json_views(messages@) =~= seq![said]);
    }
    request_json(model, messages, None, true)
}

/// The two messages of a briefing and a question.
pub open spec fn briefed(system: Seq<char>, user: JsonView) -> Seq<JsonView> {
    seq![message("system"@, JsonView::Text(system)), message("user"@, user)]
}

/// A request with a briefing and a question.
pub fn briefed_request(
    model: &str,
    system: &str,
    user: Json,
    max_tokens: Option<u32>,
    json_mode: bool,
) -> (r: Json)
    ensures
        r@ == request(model@, briefed(system@, user@), max_tokens, json_mode),
{
    let brief = message_json("system", text_json(system));
    let ask = message_json("user", user);
    let ghost a = brief@;
    let ghost b = ask@;
    let messages = vec![brief, ask];
    proof {
        assert(json_views(messages@) =~= seq![a, b]);
    }
    request_json(model, messages, max_tokens, json_mode)
}

// ---------------------------------------------------------------------------
// Replies
// ---------------------------------------------------------------------------

/// The text of the first choice of a reply.
pub open spec fn content_of(body: JsonView) -> Option<Seq<char>> {
    match body.get("choices"@) {
        Some(choices) => match choices.item(0) {
            Some(first) => match first.get("message"@) {
                Some(said) => said.text_at("content"@),
                None => None,
            },
            None => None,
        },
        None => None,
    }
}

/// The text of the first choice of a reply.
pub fn reply_content(body: &Json) -> (r: Option<&str>)
    ensures
        same_str(r, content_of(body@)),
{
    match body.get("choices") {
        Some(choices) => match choices.item(0) {
            Some(first) => match first.get("message") {
                Some(said) => said.text_at("content"),
                None => None,
            },
            None => None,
        },
        None => None,
    }
}

/// The quotation marks that a model may put round a remark.
pub open spec fn quote_marks() -> Seq<char> {
    seq!['"', '「', '」', '“', '”']
}

/// What a reply says aloud: nothing where it passes or is blank, else its text
/// without the quotation marks round it.
pub open spec fn remark(content: Seq<char>) -> Option<Seq<char>> {
    let said = trimmed(content);
    let clean = trimmed(trimmed_of(said, quote_marks()));
    if has_text(said, "[PASS]"@) || said.len() == 0 || clean.len() == 0 {
        None
    } else {
        Some(clean)
    }
}

/// Whether a string or its absence is what is said.
pub open spec fn same_string(r: Option<String>, v: Option<Seq<char>>) -> bool {
    match r {
        Some(s) => v == Some(s@),
        None => v is None,
    }
}

/// What a reply says aloud.
pub fn spoken(content: &str) -> (r: Option<String>)
    ensures
        same_string(r, remark(content@)),
{
    let said = trim(content);
    if contains(said.as_str(), "[PASS]") || is_empty(said.as_str()) {
        return None;
    }
    let marks: Vec<char> = vec!['"', '「', '」', '“', '”'];
    proof {
        assert(marks@ =~= quote_marks());
    }
    let inner = trim_of(said.as_str(), marks.as_slice());
    let clean = trim(inner.as_str());
    if is_empty(clean.as_str()) {
        return None;
    }
    Some(clean)
}

/// A remark is never empty.
pub proof fn law_remark_not_empty(content: Seq<char>)
    ensures
        remark(content) matches Some(said) ==> said.len() > 0,
{
}

/// A reply without the code fence that encloses all of it, line by line: the
/// first line goes if the text begins with a fence, and then the last if it is a
/// fence too.
pub open spec fn unfenced_lines(s: Seq<char>) -> Seq<char> {
    let t = trimmed(s);
    if "```"@.is_prefix_of(t) {
        let body = lines_of(t).skip(1);
        let inner = if body.len() > 0 && "```"@.is_prefix_of(trimmed(body.last())) {
            body.drop_last()
        } else {
            body
        };
        joined(inner, "\n"@)
    } else {
        t
    }
}

/// A reply without the code fence that encloses all of it, line by line.
pub fn strip_markdown_fence(s: &str) -> (r: String)
    ensures
        r@ == unfenced_lines(s@),
{
    let t = trim(s);
    if !starts_with(t.as_str(), "```") {
        return t;
    }
    let mut body = lines(t.as_str());
    let ghost all = views(body@);
    proof {
        reveal_strlit("```");
        assert(all.len() > 0);
    }
    body.remove(0);
    proof {
        assert(views(body@) =~= all.skip(1));
    }
    if body.len() > 0 {
        let last = trim(body[body.len() - 1].as_str());
        proof {
            assert(views(body@).last() == body@.last()@);
        }
        if starts_with(last.as_str(), "```") {
            let ghost rest = views(body@);
            body.pop();
            proof {
                assert(views(body@) =~= rest.drop_last());
            }
        }
    }
    join(&body, "\n")
}

/// What stands between the first fence and the last one behind it; the rest of
/// the first fence's line does not belong to it.
pub open spec fn fenced(t: Seq<char>) -> Option<Seq<char>> {
    match first_from(t, "```"@, 0) {
        None => None,
        Some(start) => {
            let after = t.skip(start + "```"@.len());
            let body = match first_from(after, "\n"@, 0) {
                Some(eol) => after.skip(eol + "\n"@.len()),
                None => after,
            };
            match last_at(body, "```"@) {
                Some(end) => Some(trimmed(body.take(end))),
                None => None,
            }
        },
    }
}

/// A reply without the code fence in it.
pub open spec fn unfenced(raw: Seq<char>) -> Seq<char> {
    match fenced(trimmed(raw)) {
        Some(inner) => inner,
        None => trimmed(raw),
    }
}

/// What stands between the first fence and the last one behind it.
pub fn fenced_body(t: &str) -> (r: Option<String>)
    ensures
        same_string(r, fenced(t@)),
{
    let cs = chars_of(t);
    let fence = chars_of("```");
    let newline = chars_of("\n");
    match find_from(cs.as_slice(), fence.as_slice(), 0) {
        None => None,
        Some(start) => {
            let after_text = string_between(cs.as_slice(), start + fence.len(), cs.len());
            let after = chars_of(after_text.as_str());
            proof {
                assert(after@ =~= t@.skip(start + "```"@.len()));
            }
            let from: usize = match find_from(after.as_slice(), newline.as_slice(), 0) {
                Some(eol) => eol + newline.len(),
                None => 0,
            };
            let body_text = string_between(after.as_slice(), from, after.len());
            let body = chars_of(body_text.as_str());
            proof {
                assert(body@ =~= after@.skip(from as int));
                assert(after@.skip(0) =~= after@);
            }
            match find_last(body.as_slice(), fence.as_slice()) {
                Some(end) => {
                    let inner = string_between(body.as_slice(), 0, end);
                    proof {
                        assert(inner@ =~= body@.take(end as int));
                    }
                    Some(trim(inner.as_str()))
                },
                None => None,
            }
        },
    }
}

/// A reply without the code fence in it.
pub fn strip_fence(raw: &str) -> (r: String)
    ensures
        r@ == unfenced(raw@),
{
    let t = trim(raw);
    match fenced_body(t.as_str()) {
        Some(inner) => inner,
        None => t,
    }
}

} // verus!
