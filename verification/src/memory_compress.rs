//! Older turns put into a few words.

use crate::chat::{briefed, briefed_request, content_of, reply_content, request, spoken, text_json};
use crate::config::{chat_model, chat_model_of, content_view};
use crate::json::{json_views, Json, JsonView};
use crate::memory::{turn_line, turn_text};
use crate::proactive::same_remark;
use crate::text::{is_blank, replace, replaced, trimmed};
use vstd::prelude::*;

verus! {

/// The lines of the turns that are not blank.
pub open spec fn messages_text(turns: Seq<JsonView>) -> Seq<char>
    decreases turns.len(),
{
    if turns.len() == 0 {
        Seq::empty()
    } else {
        let rest = messages_text(turns.drop_last());
        if trimmed(turns.last().text_or("content"@, ""@)).len() == 0 {
            rest
        } else {
            rest + turn_line(turns.last())
        }
    }
}

/// The lines of the turns that are not blank.
pub fn render_messages_text(messages: &Vec<Json>) -> (r: String)
    ensures
        r@ == messages_text(json_views(messages@)),
{
    let ghost all = json_views(messages@);
    let mut out = String::new();
    let mut i: usize = 0;
    proof {
        assert(out@ =~= messages_text(all.take(0)));
    }
    while i < messages.len()
        invariant
            i <= messages.len(),
            all == json_views(messages@),
            out@ == messages_text(all.take(i as int)),
        decreases messages.len() - i,
    {
        proof {
            assert(all.take(i + 1).drop_last() =~= all.take(i as int));
            assert(all.take(i + 1).last() == messages@[i as int]@);
        }
        let content = messages[i].text_or("content", "");
        if !is_blank(content.as_str()) {
            out.append(turn_text(&messages[i]).as_str());
        }
        i = i + 1;
    }
    proof {
        assert(all.take(i as int) =~= all);
    }
    out
}

/// The request that asks the model for talk for a summary, by a prompt with a place
/// for `{CONVERSATION}`.
pub open spec fn summary_request(
    config: Option<Seq<char>>,
    template: Seq<char>,
    conversation: Seq<char>,
) -> JsonView {
    request(
        chat_model_of(config),
        briefed(
            "你是对话归档助手，只输出备忘录文本。"@,
            JsonView::Text(replaced(template, "{CONVERSATION}"@, conversation)),
        ),
        Some(512),
        false,
    )
}

/// The request for a summary of turns; nothing where they are all blank.
pub fn compress_request(config: Option<&str>, template: &str, messages: &Vec<Json>) -> (r: Option<
    Json,
>)
    ensures
        ({
            let text = messages_text(json_views(messages@));
            match r {
                None => trimmed(text).len() == 0,
                Some(body) => trimmed(text).len() > 0 && body@ == summary_request(
                    content_view(config),
                    template@,
                    text,
                ),
            }
        }),
{
    let conversation = render_messages_text(messages);
    if is_blank(conversation.as_str()) {
        return None;
    }
    proof {
        reveal_strlit("{CONVERSATION}");
    }
    let prompt = replace(template, "{CONVERSATION}", conversation.as_str());
    Some(
        briefed_request(
            chat_model(config).as_str(),
            "你是对话归档助手，只输出备忘录文本。",
            text_json(prompt.as_str()),
            Some(512),
            false,
        ),
    )
}

/// The summary in a reply; nothing where the model passes.
pub fn compress_recent_messages(body: &Json) -> (r: Result<Option<String>, String>)
    ensures
        same_remark(r, content_of(body@), "对话压缩响应无内容"@),
{
    match reply_content(body) {
        None => Err("对话压缩响应无内容".to_string()),
        Some(content) => Ok(spoken(content)),
    }
}

} // verus!
