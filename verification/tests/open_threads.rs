use dagent::clock::Seconds;
use dagent::json::{read_json, Json};
use dagent::open_threads::{
    clean_threads, detect_open_threads, open_threads_request, parse_open_threads_json,
    OpenThreadsCache, OPEN_THREADS_COOLDOWN_SECONDS,
};

#[test]
fn test_parse_plain_json() {
    let raw = r#"{"open_threads": ["用户说想吃顿好的，没人接", "AI 答应明天整理笔记"]}"#;
    let threads = parse_open_threads_json(raw);
    assert_eq!(threads.len(), 2);
    assert_eq!(threads[0], "用户说想吃顿好的，没人接");
}

#[test]
fn test_parse_fenced_json() {
    let raw = "```json\n{\"open_threads\": [\"话题A\"]}\n```";
    let threads = parse_open_threads_json(raw);
    assert_eq!(threads, vec!["话题A"]);
}

#[test]
fn test_parse_empty() {
    assert_eq!(parse_open_threads_json(r#"{"open_threads": []}"#), Vec::<String>::new());
    assert_eq!(parse_open_threads_json("[]"), Vec::<String>::new());
    assert_eq!(parse_open_threads_json("not json"), Vec::<String>::new());
}

#[test]
fn test_cache_invalidation_flow() {
    let mut cache = OpenThreadsCache::new();
    assert!(!cache.has_open_threads());
    cache.store(vec!["话题A".to_string()]);
    assert!(cache.has_open_threads());
    assert_eq!(cache.current(), vec!["话题A"]);
    cache.invalidate();
    assert!(!cache.has_open_threads());
    assert_eq!(cache.current(), Vec::<String>::new());
    assert!(!cache.should_recompute());
}

#[test]
fn test_cooldown_gate() {
    let mut cache = OpenThreadsCache::new();
    cache.store(vec![]);
    cache.invalidate();
    assert!(!cache.should_recompute());
    let now = chrono::Local::now().timestamp_micros();
    let earlier = now - (OPEN_THREADS_COOLDOWN_SECONDS + 1) * 1_000_000;
    cache.store_at(vec![], Seconds { micros: earlier });
    cache.invalidate();
    assert!(cache.should_recompute());
}

#[test]
fn cooldown_to_the_second() {
    let mut cache = OpenThreadsCache::new();
    cache.store_at(vec!["a".to_string()], Seconds::of(100));
    assert!(!cache.should_recompute_at(Seconds::of(1000)));
    cache.invalidate();
    assert!(!cache.should_recompute_at(Seconds::of(159)));
    assert!(cache.should_recompute_at(Seconds::of(160)));
    assert!(cache.cooldown_passed());
}

#[test]
fn test_detect_cleans_dedup_truncate() {
    let raw = r#"{"open_threads": ["  ", "话题A", "话题A", "话题B", "话题C", "话题D"]}"#;
    let parsed = parse_open_threads_json(raw);
    assert_eq!(parsed.len(), 6);
    assert_eq!(clean_threads(&parsed), vec!["话题A", "话题B", "话题C"]);
}

fn reply(content: &str) -> Json {
    let said = Json::Record(vec![("content".to_string(), Json::Text(content.to_string()))]);
    let choice = Json::Record(vec![("message".to_string(), said)]);
    Json::Record(vec![("choices".to_string(), Json::List(vec![choice]))])
}

#[test]
fn threads_in_a_reply() {
    let answer = r#"好的 ```json
{"open_threads": [" 话题A ", 3, "话题A"]}
``` 以上"#;
    assert_eq!(detect_open_threads(&reply(answer)), Ok(vec!["话题A".to_string()]));
    assert_eq!(
        detect_open_threads(&read_json("[]").unwrap()),
        Err("未收尾话题检测响应无内容".to_string())
    );
    let body = open_threads_request(None, "用户: 你好");
    let messages = body.items_at("messages").unwrap();
    assert_eq!(messages[0].text_at("content"), Some("你是对话回顾助手，只输出 JSON。"));
    assert!(messages[1].text_at("content").unwrap().contains("======\n用户: 你好\n======"));
    assert_eq!(body.integer_at("max_tokens"), Some(512));
}
