//! The configuration: which models are asked, and with which key.

use crate::json::{json_read, read_json, Json, JsonView};
use crate::text::{drop_front, is_empty, trim, trim_start_of, trimmed};
use vstd::prelude::*;

verus! {

/// The model for talk, where none is configured.
pub const CHAT_MODEL_DEFAULT: &'static str = "qwen3.6-plus";

/// The model for pictures, where none is configured.
pub const VISION_MODEL_DEFAULT: &'static str = "qwen3-vl-plus";

/// The model for work on the memory, where none is configured.
pub const MEMORY_MODEL_DEFAULT: &'static str = "qwen-max";

/// A text without the byte order marks at its start.
pub open spec fn without_mark(content: Seq<char>) -> Seq<char> {
    drop_front(content, |c: char| seq!['\u{feff}'].contains(c))
}

/// The document in a configuration file, or the words of the error.
pub open spec fn config_read(content: Seq<char>) -> Result<JsonView, Seq<char>> {
    json_read(without_mark(content))
}

/// The document in a configuration file, or the words of the error.
pub fn parse_config(content: &str) -> (r: Result<Json, String>)
    ensures
        match r {
            Ok(j) => config_read(content@) == Ok::<JsonView, Seq<char>>(j@),
            Err(e) => config_read(content@) == Err::<JsonView, Seq<char>>(e@),
        },
{
    let marks: Vec<char> = vec!['\u{feff}'];
    proof {
        assert(marks@ =~= seq!['\u{feff}']);
    }
    let body = trim_start_of(content, marks.as_slice());
    read_json(body.as_str())
}

/// The text of a field of the configuration, trimmed; `default` where the field
/// is missing, no text or blank.
pub open spec fn setting_in(cfg: JsonView, key: Seq<char>, default: Seq<char>) -> Seq<char> {
    match cfg.text_at(key) {
        Some(s) => if trimmed(s).len() > 0 {
            trimmed(s)
        } else {
            default
        },
        None => default,
    }
}

/// The text of a field of the configuration, or `default`.
pub fn setting(cfg: &Json, key: &str, default: &str) -> (r: String)
    ensures
        r@ == setting_in(cfg@, key@, default@),
{
    match cfg.text_at(key) {
        Some(s) => {
            let t = trim(s);
            if !is_empty(t.as_str()) {
                t
            } else {
                default.to_string()
            }
        },
        None => default.to_string(),
    }
}

/// The characters of a file's content, if it could be read.
pub open spec fn content_view(content: Option<&str>) -> Option<Seq<char>> {
    match content {
        Some(s) => Some(s@),
        None => None,
    }
}

/// The setting under `key` in a configuration file; `default` where the file could
/// not be read, is no JSON, or has no such text.
pub open spec fn setting_of(
    content: Option<Seq<char>>,
    key: Seq<char>,
    default: Seq<char>,
) -> Seq<char> {
    match content {
        None => default,
        Some(s) => match config_read(s) {
            Ok(cfg) => setting_in(cfg, key, default),
            Err(_) => default,
        },
    }
}

/// The model under `key` in a configuration file of this content.
pub fn model_cfg(content: Option<&str>, key: &str, default: &str) -> (r: String)
    ensures
        r@ == setting_of(content_view(content), key@, default@),
{
    match content {
        None => default.to_string(),
        Some(s) => match parse_config(s) {
            Ok(cfg) => setting(&cfg, key, default),
            Err(_) => default.to_string(),
        },
    }
}

/// The model for talk that a configuration file names.
pub open spec fn chat_model_of(content: Option<Seq<char>>) -> Seq<char> {
    setting_of(content, "chat_model"@, CHAT_MODEL_DEFAULT@)
}

/// The model for pictures that a configuration file names.
pub open spec fn vision_model_of(content: Option<Seq<char>>) -> Seq<char> {
    setting_of(content, "vision_model"@, VISION_MODEL_DEFAULT@)
}

/// The model for work on the memory that a configuration file names.
pub open spec fn memory_model_of(content: Option<Seq<char>>) -> Seq<char> {
    setting_of(content, "memory_model"@, MEMORY_MODEL_DEFAULT@)
}

/// The model for talk.
pub fn chat_model(content: Option<&str>) -> (r: String)
    ensures
        r@ == chat_model_of(content_view(content)),
{
    model_cfg(content, "chat_model", CHAT_MODEL_DEFAULT)
}

/// The model for pictures.
pub fn vision_model(content: Option<&str>) -> (r: String)
    ensures
        r@ == vision_model_of(content_view(content)),
{
    model_cfg(content, "vision_model", VISION_MODEL_DEFAULT)
}

/// The model for work on the memory: merging, reflection, signals and topics.
pub fn memory_model(content: Option<&str>) -> (r: String)
    ensures
        r@ == memory_model_of(content_view(content)),
{
    model_cfg(content, "memory_model", MEMORY_MODEL_DEFAULT)
}

/// The document of the configuration file, or what is wrong with it.
pub open spec fn config_of(content: Option<Seq<char>>) -> Result<JsonView, Seq<char>> {
    match content {
        None => Err("未找到 config.json"@),
        Some(s) => match config_read(s) {
            Ok(cfg) => Ok(cfg),
            Err(e) => Err("config.json 解析失败: "@ + e),
        },
    }
}

/// The document of the configuration file, or what is wrong with it.
pub fn read_config(content: Option<&str>) -> (r: Result<Json, String>)
    ensures
        match r {
            Ok(j) => config_of(content_view(content)) == Ok::<JsonView, Seq<char>>(j@),
            Err(e) => config_of(content_view(content)) == Err::<JsonView, Seq<char>>(e@),
        },
{
    match content {
        None => Err("未找到 config.json".to_string()),
        Some(s) => match parse_config(s) {
            Ok(cfg) => Ok(cfg),
            Err(e) => {
                let mut out = "config.json 解析失败: ".to_string();
                out.append(e.as_str());
                Err(out)
            },
        },
    }
}

/// The key in the configuration document, or what is wrong.
pub open spec fn key_in(cfg: JsonView) -> Result<Seq<char>, Seq<char>> {
    match cfg.text_at("qianwen_api_key"@) {
        Some(k) => Ok(k),
        None => Err("config.json 缺少 qianwen_api_key"@),
    }
}

/// The key for the models: that of the environment if it is not empty, else that
/// of the configuration file.
pub open spec fn key_of(
    env: Option<Seq<char>>,
    content: Option<Seq<char>>,
) -> Result<Seq<char>, Seq<char>> {
    if env is Some && env->0.len() > 0 {
        Ok(env->0)
    } else {
        match config_of(content) {
            Ok(cfg) => key_in(cfg),
            Err(e) => Err(e),
        }
    }
}

/// Whether a result of strings is the one that is said.
pub open spec fn same_result(r: Result<String, String>, v: Result<Seq<char>, Seq<char>>) -> bool {
    match r {
        Ok(s) => v == Ok::<Seq<char>, Seq<char>>(s@),
        Err(e) => v == Err::<Seq<char>, Seq<char>>(e@),
    }
}

/// The key in the configuration document, or what is wrong.
pub fn key_from(cfg: &Json) -> (r: Result<String, String>)
    ensures
        same_result(r, key_in(cfg@)),
{
    match cfg.text_at("qianwen_api_key") {
        Some(k) => Ok(k.to_string()),
        None => Err("config.json 缺少 qianwen_api_key".to_string()),
    }
}

/// The key for the models.
pub fn get_qwen_api_key(env: Option<&str>, content: Option<&str>) -> (r: Result<String, String>)
    ensures
        same_result(r, key_of(content_view(env), content_view(content))),
{
    if let Some(k) = env {
        if !is_empty(k) {
            return Ok(k.to_string());
        }
    }
    match read_config(content) {
        Ok(cfg) => key_from(&cfg),
        Err(e) => Err(e),
    }
}

} // verus!
