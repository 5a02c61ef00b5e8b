//! The decisions behind a desktop companion: what it remembers, what it senses
//! of the user's activity, and when and about what it speaks up.

pub mod activity;
pub mod activity_laws;
pub mod chat;
pub mod chat_laws;
pub mod clock;
pub mod companion;
pub mod companion_laws;
pub mod config;
pub mod dedup;
pub mod dedup_laws;
pub mod json;
pub mod memory;
pub mod memory_compress;
pub mod memory_extract;
pub mod memory_laws;
pub mod memory_prompts;
pub mod memory_reflect;
pub mod open_threads;
pub mod order;
pub mod proactive;
pub mod proactive_laws;
pub mod recall;
pub mod recall_laws;
pub mod reflection_laws;
pub mod reflections;
pub mod score;
pub mod text;
pub mod text_laws;
pub mod topic;
pub mod topic_laws;
pub mod vision;
pub mod vision_laws;

pub use companion::{AppState, ChatLog};
pub use config::{
    chat_model, memory_model, model_cfg, vision_model, CHAT_MODEL_DEFAULT, MEMORY_MODEL_DEFAULT,
    VISION_MODEL_DEFAULT,
};
