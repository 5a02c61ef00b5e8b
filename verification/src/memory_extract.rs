//! Facts out of a conversation: the question, and what is taken from the answer.

use crate::chat::{json_question, json_question_request, strip_markdown_fence, unfenced_lines};
use crate::clock::{local_now, Now};
use crate::config::{chat_model, chat_model_of, content_view};
use crate::json::{json_read, json_views, read_json, Json, JsonView};
use crate::memory::{offer_views, MemoryStore};
use crate::memory_prompts::FACT_EXTRACTION_PROMPT;
use crate::text::{
    byte_len, byte_size, head, replace, replaced, same_text, take_chars, trim, trimmed,
};
use vstd::prelude::*;

verus! {

/// Whether a further attempt follows a failed one, counted from zero: there are
/// three.
pub fn may_retry(attempt: u32) -> (r: bool)
    ensures
        r == (attempt < 2),
{
    attempt < 2
}

/// The question for the facts in a conversation.
pub open spec fn extraction_prompt(
    conversation: Seq<char>,
    lanlan_name: Seq<char>,
    master_name: Seq<char>,
) -> Seq<char> {
    replaced(
        replaced(
            replaced(FACT_EXTRACTION_PROMPT@, "{LANLAN_NAME}"@, lanlan_name),
            "{MASTER_NAME}"@,
            master_name,
        ),
        "{CONVERSATION}"@,
        conversation,
    )
}

/// The request that asks the model for talk for the facts in a conversation.
pub fn extraction_request(
    config: Option<&str>,
    conversation: &str,
    lanlan_name: &str,
    master_name: &str,
) -> (r: Json)
    ensures
        r@ == json_question(
            chat_model_of(content_view(config)),
            extraction_prompt(conversation@, lanlan_name@, master_name@),
        ),
{
    proof {
        reveal_strlit("{LANLAN_NAME}");
        reveal_strlit("{MASTER_NAME}");
        reveal_strlit("{CONVERSATION}");
    }
    let a = replace(FACT_EXTRACTION_PROMPT, "{LANLAN_NAME}", lanlan_name);
    let b = replace(a.as_str(), "{MASTER_NAME}", master_name);
    let c = replace(b.as_str(), "{CONVERSATION}", conversation);
    json_question_request(chat_model(config).as_str(), c.as_str())
}

/// The low thirty-two bits of an integer, with their sign.
pub open spec fn low_bits(n: int) -> int {
    (n + 0x8000_0000) % 0x1_0000_0000 - 0x8000_0000
}

fn to_low_bits(n: i64) -> (r: i32)
    ensures
        r == low_bits(n as int),
{
    let moved: u128 = (n as i128 + 0x8000_0000 + 0x1_0000_0000_0000_0000) as u128;
    let low: u128 = moved % 0x1_0000_0000;
    (low as i128 - 0x8000_0000) as i32
}

/// An entity, or the user where it is none of the three.
pub open spec fn known_entity(entity: Seq<char>) -> Seq<char> {
    if entity == "master"@ || entity == "neko"@ || entity == "relationship"@ {
        entity
    } else {
        "master"@
    }
}

/// The fact that an item of the answer offers: a text of four bytes or more.
pub open spec fn offer_in(item: JsonView) -> Option<(Seq<char>, i32, Seq<char>)> {
    let text = trimmed(item.text_or("text"@, ""@));
    if byte_size(text) < 4 {
        None
    } else {
        Some(
            (
                text,
                match item.integer_at("importance"@) {
                    Some(n) => low_bits(n as int) as i32,
                    None => 5,
                },
                known_entity(item.text_or("entity"@, "master"@)),
            ),
        )
    }
}

/// The facts that the items of an answer offer.
pub open spec fn offers_in(items: Seq<JsonView>) -> Seq<(Seq<char>, i32, Seq<char>)>
    decreases items.len(),
{
    if items.len() == 0 {
        Seq::empty()
    } else {
        let rest = offers_in(items.drop_last());
        match offer_in(items.last()) {
            Some(f) => rest.push(f),
            None => rest,
        }
    }
}

/// The items of an answer: the list it is, or the one under `facts`.
pub open spec fn answer_items(v: JsonView, content: Seq<char>) -> Result<
    Seq<JsonView>,
    Seq<char>,
> {
    match v.items() {
        Some(items) => Ok(items),
        None => match v.get("facts"@) {
            None => Err("提取结果不是数组且无 facts 字段（原始: "@ + head(content, 200) + "）"@),
            Some(facts) => match facts.items() {
                Some(items) => Ok(items),
                None => Err("提取结果不是数组"@),
            },
        },
    }
}

/// The facts that an answer offers, or what is wrong with it.
pub open spec fn offers_of(content: Seq<char>) -> Result<
    Seq<(Seq<char>, i32, Seq<char>)>,
    Seq<char>,
> {
    match json_read(unfenced_lines(content)) {
        Err(e) => Err(
            "提取结果 JSON 解析失败: "@ + e + "（原始: "@ + head(content, 200) + "）"@,
        ),
        Ok(v) => match answer_items(v, content) {
            Ok(items) => Ok(offers_in(items)),
            Err(e) => Err(e),
        },
    }
}

fn read_offer(item: &Json) -> (r: Option<(String, i32, String)>)
    ensures
        match r {
            Some(f) => offer_in(item@) == Some((f.0@, f.1, f.2@)),
            None => offer_in(item@) is None,
        },
{
    let text = trim(item.text_or("text", "").as_str());
    if byte_len(text.as_str()) < 4 {
        return None;
    }
    let importance: i32 = match item.integer_at("importance") {
        Some(n) => to_low_bits(n),
        None => 5,
    };
    let entity = item.text_or("entity", "master");
    let known = if same_text(entity.as_str(), "master") || same_text(entity.as_str(), "neko")
        || same_text(entity.as_str(), "relationship") {
        entity
    } else {
        "master".to_string()
    };
    Some((text, importance, known))
}

/// The facts that the items of an answer offer.
pub fn read_offers(items: &Vec<Json>) -> (r: Vec<(String, i32, String)>)
    ensures
        offer_views(r@) == offers_in(json_views(items@)),
{
    let ghost all = json_views(items@);
    let mut out: Vec<(String, i32, String)> = Vec::new();
    let mut i: usize = 0;
    proof {
        assert(offer_views(out@) =~= offers_in(all.take(0)));
    }
    while i < items.len()
        invariant
            i <= items.len(),
            all == json_views(items@),
            offer_views(out@) == offers_in(all.take(i as int)),
        decreases items.len() - i,
    {
        let ghost before = offer_views(out@);
        proof {
            assert(all.take(i + 1).drop_last() =~= all.take(i as int));
            assert(all.take(i + 1).last() == items@[i as int]@);
        }
        if let Some(f) = read_offer(&items[i]) {
            out.push(f);
            proof {
                assert(offer_views(out@) =~= before.push((f.0@, f.1, f.2@)));
            }
        }
        i = i + 1;
    }
    proof {
        assert(all.take(i as int) =~= all);
    }
    out
}

/// Whether a result of offers is the one that is said.
pub open spec fn same_offers(
    r: Result<Vec<(String, i32, String)>, String>,
    v: Result<Seq<(Seq<char>, i32, Seq<char>)>, Seq<char>>,
) -> bool {
    match r {
        Ok(fs) => v == Ok::<Seq<(Seq<char>, i32, Seq<char>)>, Seq<char>>(offer_views(fs@)),
        Err(e) => v == Err::<Seq<(Seq<char>, i32, Seq<char>)>, Seq<char>>(e@),
    }
}

fn quoted(lead: &str, content: &str) -> (r: String)
    ensures
        r@ == lead@ + "（原始: "@ + head(content@, 200) + "）"@,
{
    let mut out = lead.to_string();
    out.append("（原始: ");
    out.append(take_chars(content, 200).as_str());
    out.append("）");
    out
}

/// The facts that a document offers, or what is wrong with it.
pub fn offers_from(v: &Json, content: &str) -> (r: Result<Vec<(String, i32, String)>, String>)
    ensures
        match answer_items(v@, content@) {
            Ok(items) => r matches Ok(fs) && offer_views(fs@) == offers_in(items),
            Err(e) => r matches Err(t) && t@ == e,
        },
{
    match v.as_array() {
        Some(items) => Ok(read_offers(items)),
        None => match v.get("facts") {
            None => {
                let mut out = "提取结果不是数组且无 facts 字段（原始: ".to_string();
                out.append(take_chars(content, 200).as_str());
                out.append("）");
                Err(out)
            },
            Some(facts) => match facts.as_array() {
                Some(items) => Ok(read_offers(items)),
                None => Err("提取结果不是数组".to_string()),
            },
        },
    }
}

/// The facts that an answer offers, or what is wrong with it.
pub fn parse_offers(content: &str) -> (r: Result<Vec<(String, i32, String)>, String>)
    ensures
        same_offers(r, offers_of(content@)),
{
    let cleaned = strip_markdown_fence(content);
    match read_json(cleaned.as_str()) {
        Err(e) => {
            let mut lead = "提取结果 JSON 解析失败: ".to_string();
            lead.append(e.as_str());
            Err(quoted(lead.as_str(), content))
        },
        Ok(v) => offers_from(&v, content),
    }
}

/// Takes the facts that an answer offers into the store, now; counts those that were
/// taken in and the others.
pub fn parse_and_store(store: &mut MemoryStore, content: &str) -> (r: Result<
    (usize, usize),
    String,
>)
    ensures
        match offers_of(content@) {
            Err(e) => r matches Err(t) && t@ == e && final(store)@ == old(store)@,
            Ok(offers) => r matches Ok(n) && n.0 + n.1 == offers.len() && exists|
                compact: Seq<char>,
                tee: Seq<char>,
            |
                final(store)@ == #[trigger] old(store)@.with_facts(offers, compact, tee) && n.0
                    == old(store)@.facts_accepted(offers, compact, tee),
        },
{
    let now = local_now();
    parse_and_store_at(store, content, &now)
}

/// Takes the facts that an answer offers into the store at `now`; counts those that
/// were taken in and the others.
pub fn parse_and_store_at(store: &mut MemoryStore, content: &str, now: &Now) -> (r: Result<
    (usize, usize),
    String,
>)
    ensures
        match offers_of(content@) {
            Err(e) => r matches Err(t) && t@ == e && final(store)@ == old(store)@,
            Ok(offers) => r matches Ok(n) && final(store)@ == old(store)@.with_facts(
                offers,
                now.compact@,
                now.tee@,
            ) && n.0 == old(store)@.facts_accepted(offers, now.compact@, now.tee@) && n.0 + n.1
                == offers.len(),
        },
{
    match parse_offers(content) {
        Err(e) => Err(e),
        Ok(offers) => {
            proof {
                assert(offer_views(offers@).len() == offers@.len());
            }
            Ok(store.add_facts_at(offers.as_slice(), now))
        },
    }
}

} // verus!
