use dagent::clock::{Now, Wall};
use dagent::dedup::{strip_answer, Action};
use dagent::json::{read_json, Json};
use dagent::memory::{
    hash_text, initial_reinforcement_from_importance, read_fact, MemoryStore, Reflection,
};
use dagent::memory_compress::{compress_recent_messages, compress_request, render_messages_text};
use dagent::memory_extract::{
    extraction_request, may_retry, offers_from, parse_and_store, parse_and_store_at, parse_offers,
};
use dagent::memory_prompts::{entity_label, time_since_label};
use dagent::recall::{overlap_score, similar_enough, split_words};
use std::collections::hash_map::DefaultHasher;
use std::hash::{Hash, Hasher};

fn tmp_store() -> MemoryStore {
    MemoryStore::new("memory".to_string())
}

/// Noon of the twentieth of August 2026, and a number of days later.
fn day(later: i32) -> Now {
    Now {
        micros: 1_787_000_000_000_000,
        nanos: 0,
        wall: Wall { day: 739_848 + later, second: 43_200, frac: 0 },
        weekday: 3,
        spaced: "2026-08-20 12:00:00".to_string(),
        tee: "2026-08-20T12:00:00".to_string(),
        compact: "20260820120000".to_string(),
        date: "2026-08-20".to_string(),
    }
}

fn json(text: &str) -> Json {
    read_json(text).unwrap()
}

#[test]
fn test_add_fact_dedup() {
    let mut s = tmp_store();
    assert!(s.add_fact("主人喜欢喝咖啡", 7, "master").unwrap());
    assert!(!s.add_fact("主人喜欢喝咖啡", 7, "master").unwrap());
    assert!(s.add_fact("主人是大学生", 8, "master").unwrap());
    assert_eq!(s.get_facts().len(), 2);
}

#[test]
fn test_facts_sorted_by_importance() {
    let mut s = tmp_store();
    s.add_fact("低优先级", 3, "master").unwrap();
    s.add_fact("高优先级", 9, "master").unwrap();
    let facts = s.get_facts();
    assert_eq!(facts[0].importance, 9);
    assert_eq!(facts[0].text, "高优先级");
}

#[test]
fn new_fact_fields() {
    let mut s = tmp_store();
    assert_eq!(s.add_fact_at("  喜欢猫  ", 99, "neko", &day(0)), Ok(true));
    let f = &s.get_facts()[0];
    let hash = hash_text("喜欢猫").to_string();
    assert_eq!(f.id, format!("fact_20260820120000_{}", &hash[..8]));
    assert_eq!(f.text, "喜欢猫");
    assert_eq!(f.importance, 10);
    assert_eq!(f.entity, "neko");
    assert_eq!(f.created_at, "2026-08-20T12:00:00");
    assert!(!f.absorbed && !f.signals_checked);
    assert_eq!(s.add_fact_at("x", -5, "neko", &day(0)), Ok(true));
    assert_eq!(s.get_facts()[1].importance, 1);
    assert_eq!(s.add_fact_at("   ", 5, "neko", &day(0)), Ok(false));
    assert_eq!(s.dir(), "memory");
}

#[test]
fn fact_hash_is_that_of_the_standard_library() {
    for text in ["", "a", "主人喜欢喝咖啡"] {
        let mut h = DefaultHasher::new();
        text.hash(&mut h);
        assert_eq!(hash_text(text), h.finish());
    }
}

#[test]
fn facts_that_are_no_list() {
    let mut s = MemoryStore::load("d".to_string(), Some("{}"), Some("3"), None, Vec::new());
    let broken = Err("facts.json 不是数组".to_string());
    assert_eq!(s.add_fact("咖啡", 5, "master"), broken);
    assert_eq!(s.mark_facts_absorbed(&Vec::new()), Err("facts.json 不是数组".to_string()));
    assert_eq!(
        s.append_recent("user", "x"),
        Err("recent.json 不是数组".to_string())
    );
    assert!(s.get_facts().is_empty());
    assert!(s.get_recent().is_empty());
    // A file that is no JSON counts as missing.
    let mut s = MemoryStore::load("d".to_string(), Some("not json"), None, None, Vec::new());
    assert_eq!(s.add_fact("咖啡", 5, "master"), Ok(true));
}

#[test]
fn stored_facts_are_read() {
    let text = r#"[
        {"id": "a", "text": "旧", "importance": 9, "entity": "master", "created_at": "2026-01-01T00:00:00", "absorbed": true, "more": 1},
        {"id": "b", "text": "新", "importance": 5, "entity": "neko", "created_at": "2026-01-02T00:00:00"},
        {"id": "c", "text": "缺", "importance": 5, "entity": "neko"},
        {"id": "d", "text": "错", "importance": 5.5, "entity": "neko", "created_at": "x"},
        {"id": "e", "text": "大", "importance": 3000000000, "entity": "neko", "created_at": "x"},
        ["f", "列", 7, "master", "2026-01-03T00:00:00"],
        "text"
    ]"#;
    let s = MemoryStore::load("d".to_string(), Some(text), None, None, Vec::new());
    let facts = s.get_facts();
    // Those not absorbed come first, whatever their importance.
    let ids: Vec<&str> = facts.iter().map(|f| f.id.as_str()).collect();
    assert_eq!(ids, vec!["f", "b", "a"]);
    assert!(facts[2].absorbed);
    assert_eq!(s.get_unabsorbed_facts(6).len(), 1);
    assert_eq!(s.get_unabsorbed_facts(5).len(), 2);
    assert_eq!(s.get_pending_signal_facts(5, 1).len(), 1);
    assert!(read_fact(&json(r#"["a", "b", 1, "c", "d", true, false, 8]"#)).is_none());
}

#[test]
fn newer_facts_first_and_stable() {
    let mut s = tmp_store();
    let mut later = day(1);
    later.tee = "2026-08-21T12:00:00".to_string();
    s.add_fact_at("甲", 5, "master", &day(0)).unwrap();
    s.add_fact_at("乙", 5, "master", &later).unwrap();
    s.add_fact_at("丙", 5, "master", &day(0)).unwrap();
    let facts = s.get_facts();
    let texts: Vec<&str> = facts.iter().map(|f| f.text.as_str()).collect();
    assert_eq!(texts, vec!["乙", "甲", "丙"]);
}

#[test]
fn add_several_facts() {
    let mut s = tmp_store();
    let facts = vec![
        ("一".to_string(), 5, "master".to_string()),
        (" 一 ".to_string(), 6, "neko".to_string()),
        ("二".to_string(), 5, "master".to_string()),
        ("".to_string(), 5, "master".to_string()),
    ];
    assert_eq!(s.add_facts(&facts), (2, 2));
    assert_eq!(s.add_facts_at(&facts, &day(0)), (0, 4));
}

#[test]
fn marks() {
    let mut s = tmp_store();
    s.add_fact("甲事实", 7, "master").unwrap();
    s.add_fact("乙事实", 7, "master").unwrap();
    let id = s.get_facts()[0].id.clone();
    assert_eq!(s.mark_facts_signals_checked(&vec![id.clone()]), Ok(()));
    assert_eq!(s.get_pending_signal_facts(5, 10).len(), 1);
    assert_eq!(s.get_unabsorbed_facts(5).len(), 2);
    assert_eq!(s.mark_facts_absorbed(&vec![id.clone(), "nobody".to_string()]), Ok(()));
    let left = s.get_unabsorbed_facts(5);
    assert_eq!(left.len(), 1);
    assert!(left[0].id != id);
    let marked = s.get_facts();
    assert!(marked[1].absorbed && marked[1].signals_checked);
}

#[test]
fn facts_are_visited_once() {
    let text = r#"[
        {"id": "a", "text": "甲", "importance": 9, "entity": "master", "created_at": "t"},
        7,
        {"id": "b", "text": "乙", "importance": 8, "entity": "master", "created_at": "t"},
        ["l", "丙", 7, "master", "t", false, false],
        {"id": "c", "text": "丁", "importance": 6, "entity": "master", "created_at": "t"},
        {"id": "d", "text": "戊", "importance": 4, "entity": "master", "created_at": "t"}
    ]"#;
    let mut s = MemoryStore::load("d".to_string(), Some(text), None, None, Vec::new());
    let ids = |s: &MemoryStore, max: usize| -> Vec<String> {
        s.get_pending_signal_facts(5, max).iter().map(|f| f.id.clone()).collect()
    };
    let unabsorbed: Vec<String> =
        s.get_unabsorbed_facts(5).iter().map(|f| f.id.clone()).collect();
    assert_eq!(unabsorbed, vec!["a", "b", "l", "c"]);
    let first = ids(&s, 2);
    assert_eq!(first, vec!["a", "b"]);
    assert_eq!(s.mark_facts_signals_checked(&first), Ok(()));
    let second = ids(&s, 2);
    assert_eq!(second, vec!["l", "c"]);
    assert_eq!(s.mark_facts_signals_checked(&second), Ok(()));
    // A fact that is stored as a list takes no mark.
    assert_eq!(ids(&s, 2), vec!["l"]);
}

#[test]
fn test_recent_window() {
    let mut s = tmp_store();
    for i in 0..30 {
        s.append_recent("user", &format!("消息{}", i)).unwrap();
    }
    let recent = s.get_recent();
    assert_eq!(recent.len(), 20);
    assert!(recent[0].get("content").unwrap().as_str().unwrap().starts_with("消息10"));
}

#[test]
fn conversation_fits_its_bytes() {
    let mut s = tmp_store();
    s.append_recent_at("user", "ab", "t").unwrap();
    s.append_recent_at("assistant", "cd", "t").unwrap();
    // Each line takes eleven bytes.
    assert_eq!(s.get_recent_conversation_text(22), "主人: ab\n优香: cd\n");
    assert_eq!(s.get_recent_conversation_text(21), "主人: ab\n");
    assert_eq!(s.get_recent_conversation_text(10), "");
}

#[test]
fn personas() {
    let mut s = tmp_store();
    assert_eq!(s.add_persona_fact("master", "大二学生"), Ok(true));
    assert_eq!(s.add_persona_fact_at("master", "大二学生", "t"), Ok(false));
    assert_eq!(s.add_persona_fact_at("neko", "大二学生", "t"), Ok(true));
    assert_eq!(
        s.add_persona_fact("nobody", "x"),
        Err("persona section 不是数组".to_string())
    );
    let neko = s.get_persona().items_at("neko").unwrap();
    assert_eq!(neko[0].text_at("source"), Some("manual"));
    assert_eq!(neko[0].text_at("ts"), Some("t"));
}

#[test]
fn test_recall_hits() {
    let mut s = tmp_store();
    s.add_fact("主人喜欢喝咖啡，每天至少两杯", 8, "master").unwrap();
    s.add_fact("主人最近在学 Rust", 7, "master").unwrap();
    let result = s.recall("咖啡", 5);
    assert!(result.contains("咖啡"), "recall 应命中咖啡: {}", result);
    let result2 = s.recall("Rust", 5);
    assert!(result2.contains("Rust"), "recall 应命中 Rust: {}", result2);
    let result3 = s.recall("完全无关的话题xyz", 5);
    assert_eq!(result3, "", "无关查询应返回空: {}", result3);
}

#[test]
fn recall_in_full() {
    let mut s = tmp_store();
    s.add_fact_at("喜欢喝咖啡", 8, "master", &day(0)).unwrap();
    s.add_fact_at("咖啡过敏", 9, "neko", &day(0)).unwrap();
    s.add_persona_fact_at("master", "咖啡师", "t").unwrap();
    let now = day(3).wall;
    assert_eq!(
        s.recall_at("咖啡", 5, now),
        "【回忆到的】\n1. [关于主人] 咖啡师\n2. [关于优香] 咖啡过敏 (3 天前)\n3. [关于主人] 喜欢喝咖啡 (3 天前)"
    );
    assert_eq!(s.recall_at("咖啡", 1, now), "【回忆到的】\n1. [关于主人] 咖啡师");
    assert_eq!(s.recall_at("咖啡", 0, now), "【回忆到的】\n1. [关于主人] 咖啡师");
    // The case does not matter.
    s.add_fact_at("在学 RUST", 5, "master", &day(0)).unwrap();
    assert!(s.recall_at("rust", 5, now).contains("在学 RUST"));
}

#[test]
fn words() {
    let chars: Vec<char> = "Rust2024 学习,咖 x喝咖啡".chars().collect();
    assert_eq!(
        split_words(&chars),
        vec!["Rust2024", "学习", "咖", "x", "喝咖", "咖啡"]
    );
    let q: Vec<char> = "喝咖啡".chars().collect();
    assert_eq!(overlap_score(&q, "一杯咖啡"), 1);
    assert_eq!(overlap_score(&q, "喝咖啡"), 2);
    assert_eq!(overlap_score(&[], "喝咖啡"), 0);
}

#[test]
fn test_render_memory_context() {
    let mut s = tmp_store();
    s.add_fact("主人喜欢喝咖啡", 8, "master").unwrap();
    s.add_persona_fact("master", "用户是大二学生").unwrap();
    let ctx = s.render_memory_context(8, 2000, &Vec::new());
    assert!(ctx.contains("喜欢喝咖啡"));
    assert!(ctx.contains("大二学生"));
}

fn reflection(id: &str, text: &str, status: &str) -> Reflection {
    Reflection {
        id: id.to_string(),
        text: text.to_string(),
        entity: "master".to_string(),
        relation_type: String::new(),
        temporal_scope: String::new(),
        status: status.to_string(),
        source_fact_ids: Vec::new(),
        reinforcement: 0,
        disputation: 0,
        rein_last_signal_at: None,
        disp_last_signal_at: None,
        created_at: "2026-08-20 12:00:00".to_string(),
        confirmed_at: None,
    }
}

#[test]
fn context_in_full() {
    let mut s = tmp_store();
    s.add_persona_fact_at("master", "大二学生", "t").unwrap();
    s.add_persona_fact_at("relationship", "互相依赖", "t").unwrap();
    s.add_fact_at("主人的名字叫小李", 9, "master", &day(0)).unwrap();
    s.add_fact_at("主人叫小李", 8, "master", &day(0)).unwrap();
    s.add_fact_at("喜欢猫", 4, "master", &day(0)).unwrap();
    s.add_fact_at("会唱歌", 5, "neko", &day(0)).unwrap();
    for (id, text, status) in [
        ("1", "甲", "pending"),
        ("2", "乙", "confirmed"),
        ("3", "丙", "promoted"),
        ("4", "丁", "pending"),
    ] {
        assert!(s.add_reflection(reflection(id, text, status)));
    }
    let ranks: Vec<i64> = [0.5f64, 1.5, 9.0, 0.0]
        .iter()
        .map(|x| dagent::score::rank(x.to_bits()))
        .collect();
    let now = day(14).wall;
    assert_eq!(
        s.render_memory_context_at(8, 2000, &ranks, now),
        "【关于主人】\n- 大二学生\n【关于我们的关系】\n- 互相依赖\n【记住的事】\n- [关于主人] 主人的名字叫小李 (2 周前)\n- [关于优香] 会唱歌 (2 周前)\n【关于你的印象】\n- [关于主人] 乙\n- [关于主人] 甲\n"
    );
    assert_eq!(
        s.render_memory_context_at(1, 60, &ranks, now),
        "【关于主人】\n- 大二学生\n"
    );
    assert_eq!(s.render_memory_context_at(1, 0, &ranks, now), "");
}

#[test]
fn texts_that_say_the_same() {
    assert!(similar_enough("主人叫小李", "主人的名字叫小李"));
    assert!(similar_enough("主人的名字叫小李", "主人叫小李"));
    assert!(similar_enough("主人喜欢猫", "主人很喜欢猫的"));
    assert!(!similar_enough("主人叫小李", "主人叫小明"));
    assert!(!similar_enough("主人叫王名", "主人叫王字"));
    assert!(similar_enough("主人叫名王", "主人名字叫名王"));
    assert!(similar_enough("abcdefgh", "abcdefgh"));
}

#[test]
fn test_time_label() {
    assert_eq!(time_since_label(500), "今天");
    assert_eq!(time_since_label(3_000), "3 天前");
    assert_eq!(time_since_label(14_000), "2 周前");
    assert_eq!(time_since_label(90_000), "3 个月前");
}

#[test]
fn more_labels() {
    assert_eq!(time_since_label(-5_000), "今天");
    assert_eq!(time_since_label(1_500), "2 天前");
    assert_eq!(time_since_label(10_500), "2 周前");
    assert_eq!(time_since_label(730_000), "2 年前");
    assert_eq!(entity_label("master"), "关于主人");
    assert_eq!(entity_label("relationship"), "关系");
    assert_eq!(entity_label("x"), "记忆");
    assert_eq!(initial_reinforcement_from_importance(10), 800_000);
    assert_eq!(initial_reinforcement_from_importance(7), 200_000);
    assert_eq!(initial_reinforcement_from_importance(6), 0);
}

// Merging

fn store_with_pairs() -> MemoryStore {
    let text = r#"[
        {"id": "a", "text": "主人喜欢喝咖啡", "importance": 5, "entity": "master", "created_at": "2026-01-01T00:00:00"},
        {"id": "b", "text": "主人很喜欢喝咖啡", "importance": 8, "entity": "master", "created_at": "2026-01-02T00:00:00"},
        {"id": "c", "text": "主人喜欢喝咖啡", "importance": 5, "entity": "neko", "created_at": "2026-01-02T00:00:00"},
        {"id": "d", "text": "完全不同的事情", "importance": 5, "entity": "master", "created_at": "2026-01-02T00:00:00"}
    ]"#;
    MemoryStore::load("d".to_string(), Some(text), None, None, Vec::new())
}

#[test]
fn pairs_to_ask_about() {
    let s = store_with_pairs();
    let pairs = s.find_dedup_candidates(10);
    assert_eq!(pairs.len(), 1);
    assert_eq!((pairs[0].0.id.as_str(), pairs[0].1.id.as_str()), ("a", "b"));
    let (_, body) = s.dedup_request(Some("{}")).unwrap();
    assert_eq!(body.text_at("model"), Some("qwen-max"));
    let prompt = body.items_at("messages").unwrap()[0].text_at("content").unwrap();
    assert!(prompt.starts_with("以下是 1 组由相似度筛选出的候选事实对"));
    assert!(prompt.contains(
        "\n1.\nexisting(a): 主人喜欢喝咖啡\ncandidate(b): 主人很喜欢喝咖啡\n======以上"
    ));
    assert!(tmp_store().dedup_request(None).is_none());
}

#[test]
fn each_fact_in_one_pair() {
    let mut s = tmp_store();
    for t in ["主人喜欢喝咖啡", "主人喜欢喝咖啡啊", "主人喜欢喝咖啡呀"] {
        s.add_fact_at(t, 5, "master", &day(0)).unwrap();
    }
    // Three facts make one pair, since each stands in one at most.
    let pairs = s.find_dedup_candidates(10);
    assert_eq!(pairs.len(), 1);
}

#[test]
fn merge_keeps_the_older_fact() {
    let mut s = store_with_pairs();
    let pairs = s.find_dedup_candidates(10);
    let answer = "```json\n[{\"index\": 0, \"action\": \"merge\"}]\n```";
    assert_eq!(s.resolve_fact_dedup(&pairs, answer), Ok((1, 0, 0)));
    let facts = s.get_facts();
    assert_eq!(facts.len(), 3);
    assert_eq!((facts[0].id.as_str(), facts[0].importance), ("a", 8));
}

#[test]
fn replace_keeps_the_newer_fact() {
    let mut s = store_with_pairs();
    let pairs = s.find_dedup_candidates(10);
    let answer = r#"{"results": [{"index": 0, "action": "replace"}]}"#;
    assert_eq!(s.resolve_fact_dedup(&pairs, answer), Ok((0, 1, 0)));
    let ids: Vec<String> = s.get_facts().iter().map(|f| f.id.clone()).collect();
    assert_eq!(ids, vec!["b", "c", "d"]);
}

#[test]
fn other_answers_change_nothing() {
    let mut s = store_with_pairs();
    let pairs = s.find_dedup_candidates(10);
    for answer in [
        r#"[{"index": 0, "action": "keep_both"}]"#,
        r#"[{"index": 1, "action": "merge"}]"#,
        r#"[{"index": -1, "action": "merge"}]"#,
        r#"[{"action": "merge"}]"#,
        r#"{"answers": []}"#,
    ] {
        assert_eq!(s.resolve_fact_dedup(&pairs, answer), Ok((0, 0, 1)));
    }
    assert_eq!(s.get_facts().len(), 4);
    let e = s.resolve_fact_dedup(&pairs, "nonsense").unwrap_err();
    assert!(e.starts_with("仲裁结果解析失败: expected"));
    assert!(e.ends_with("（原始: nonsense）"));
    assert_eq!(strip_answer(" ```json\n[]\n``` "), "[]");
    let mut broken = MemoryStore::load("d".to_string(), Some("{}"), None, None, Vec::new());
    assert_eq!(
        broken.apply_decisions(&pairs, &vec![(0, Action::Merge)]),
        Err("facts.json 不是数组".to_string())
    );
}

// Extraction

#[test]
fn facts_out_of_an_answer() {
    let mut s = tmp_store();
    let answer = "```json\n{\"facts\": [
        {\"text\": \" 喜欢喝茶 \", \"importance\": 8, \"entity\": \"master\"},
        {\"text\": \"ab\", \"importance\": 8},
        {\"text\": \"会弹吉他\", \"entity\": \"dog\"},
        {\"text\": \"喜欢喝茶\"}
    ]}\n```";
    assert_eq!(parse_and_store_at(&mut s, answer, &day(0)), Ok((2, 1)));
    let facts = s.get_facts();
    assert_eq!((facts[0].text.as_str(), facts[0].importance), ("喜欢喝茶", 8));
    assert_eq!((facts[1].importance, facts[1].entity.as_str()), (5, "master"));
    assert_eq!(parse_and_store(&mut s, "[]"), Ok((0, 0)));
    // An importance beyond thirty-two bits keeps its low bits.
    assert_eq!(
        parse_offers(r#"[{"text": "很大的数", "importance": 4294967301}]"#),
        Ok(vec![("很大的数".to_string(), 5, "master".to_string())])
    );
}

#[test]
fn answers_without_facts() {
    let mut s = tmp_store();
    assert_eq!(
        parse_and_store(&mut s, r#"{"a": 1}"#),
        Err("提取结果不是数组且无 facts 字段（原始: {\"a\": 1}）".to_string())
    );
    assert_eq!(
        parse_and_store(&mut s, r#"{"facts": 1}"#),
        Err("提取结果不是数组".to_string())
    );
    let e = parse_and_store(&mut s, "???").unwrap_err();
    assert!(e.starts_with("提取结果 JSON 解析失败: ") && e.ends_with("（原始: ???）"));
    assert_eq!(
        offers_from(&json("[1]"), ""),
        Ok(Vec::new())
    );
    assert!(s.get_facts().is_empty());
}

#[test]
fn request_for_facts() {
    let body = extraction_request(None, "主人: 你好", "优香", "主人");
    assert_eq!(body.text_at("model"), Some("qwen3.6-plus"));
    assert_eq!(
        body.get("response_format").unwrap().text_at("type"),
        Some("json_object")
    );
    let prompt = body.items_at("messages").unwrap()[0].text_at("content").unwrap();
    assert!(prompt.starts_with("从以下对话中提取关于 优香 和 主人 的重要事实信息。"));
    assert!(prompt.contains("======以下为对话======\n主人: 你好\n======以上为对话======"));
    assert!(!prompt.contains("{MASTER_NAME}"));
    assert!(may_retry(0) && may_retry(1) && !may_retry(2));
}

// Compression

#[test]
fn test_render_messages_text() {
    let msgs = vec![
        json(r#"{"role": "user", "content": "我叫小李，是大学生"}"#),
        json(r#"{"role": "assistant", "content": "记住了！"}"#),
        json(r#"{"role": "user", "content": "   "}"#),
    ];
    let text = render_messages_text(&msgs);
    assert!(text.contains("主人: 我叫小李"));
    assert!(text.contains("优香: 记住了！"));
    assert!(!text.contains("空白跳过"));
}

#[test]
fn test_empty_input() {
    let text = render_messages_text(&Vec::new());
    assert!(text.is_empty());
}

#[test]
fn summaries() {
    assert!(compress_request(None, "{CONVERSATION}", &Vec::new()).is_none());
    let turns = vec![json(r#"{"role": "user", "content": "你好"}"#)];
    let body = compress_request(None, "<{CONVERSATION}>", &turns).unwrap();
    let messages = body.items_at("messages").unwrap();
    assert_eq!(messages[1].text_at("content"), Some("<主人: 你好\n>"));
    assert_eq!(body.integer_at("max_tokens"), Some(512));
    let reply = json(r#"{"choices": [{"message": {"content": " \"一份摘要\" "}}]}"#);
    assert_eq!(compress_recent_messages(&reply), Ok(Some("一份摘要".to_string())));
    assert_eq!(
        compress_recent_messages(&json("{}")),
        Err("对话压缩响应无内容".to_string())
    );
}

#[test]
fn absorbed_facts_stay_in_the_context() {
    let mut s = tmp_store();
    s.add_fact_at("主人喜欢喝茶", 6, "master", &day(0)).unwrap();
    let id = s.get_facts()[0].id.clone();
    s.mark_facts_absorbed(&vec![id]).unwrap();
    assert_eq!(
        s.render_memory_context_at(8, 2000, &Vec::new(), day(0).wall),
        "【记住的事】\n- [关于主人] 主人喜欢喝茶 (今天)\n"
    );
}
