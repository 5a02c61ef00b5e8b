use dagent::clock::Seconds;
use dagent::json::{read_json, Json};
use dagent::proactive::bigram_set;
use dagent::topic::{
    clean_text, collect_topic_candidates, day_or, format_age, generate_topic_opening,
    is_meaningful_turn, parse_topics_json, record_weight, simple_hash, topic_opening_request,
    topic_similarity, use_seconds,
    TopicMaterial, TopicPool, TopicTurnSignal, UsedTopicRecord, MAX_SIGNAL_TURNS,
    TOPIC_WEIGHT_ONE, UNANSWERED_TOPIC_WEIGHT,
};

fn now_secs() -> Seconds {
    Seconds { micros: chrono::Local::now().timestamp_micros() }
}

fn at(secs: i64) -> Seconds {
    Seconds::of(secs)
}

fn pool_at(tag: &str) -> TopicPool {
    TopicPool::new(tag.to_string())
}

fn make_material(interest: &str, keywords: &[&str], relevance: i32, risk: i32) -> TopicMaterial {
    TopicMaterial {
        hook_id: format!("test_{}", simple_hash(interest)),
        interest: interest.to_string(),
        keywords: keywords.iter().map(|s| s.to_string()).collect(),
        relevance,
        risk,
        status: "pending".to_string(),
        created_at: now_secs(),
    }
}

fn used(used_at: Seconds, weight: i64, interest: &str, keywords: &[&str]) -> UsedTopicRecord {
    UsedTopicRecord {
        used_at,
        weight: Some(weight),
        interest: interest.to_string(),
        keywords: keywords.iter().map(|s| s.to_string()).collect(),
        response_deadline: None,
    }
}

#[test]
fn test_signal_meaningful_filter() {
    assert!(!is_meaningful_turn("嗯"));
    assert!(!is_meaningful_turn("哈哈"));
    assert!(!is_meaningful_turn("好的"));
    assert!(is_meaningful_turn("我最近在学 Rust"));
    assert!(is_meaningful_turn("明天要去面试"));
    assert!(!is_meaningful_turn("哦"));
}

#[test]
fn more_turns() {
    assert!(!is_meaningful_turn("不知道"));
    assert!(!is_meaningful_turn(" 不知道 "));
    assert!(!is_meaningful_turn("？！…… --"));
    assert!(is_meaningful_turn("é1ü"));
    assert!(!is_meaningful_turn("a b"));
    assert_eq!(clean_text("  a \n\t b　c "), "a b c");
    assert_eq!(clean_text(" \n "), "");
    let long = "字 ".repeat(400);
    assert_eq!(clean_text(&long).chars().count(), 499);
    assert_eq!(simple_hash("x").len() <= 16, true);
}

#[test]
fn cleaned_texts() {
    let solid = |s: &str| s.chars().filter(|c| !c.is_whitespace()).collect::<String>();
    let many = "x".repeat(499) + "  y z";
    let long = "字 ".repeat(400);
    for s in ["", " ", "a", " a\u{3000}\u{a0} b\n", many.as_str(), long.as_str(), "一\t二"] {
        let r = clean_text(s);
        assert!(r.chars().count() <= 500);
        assert_eq!(r.trim(), r);
        assert!(!r.contains("  ") && r.chars().all(|c| c == ' ' || !c.is_whitespace()));
        assert_eq!(r.is_empty(), s.trim().is_empty());
        assert!(solid(s).starts_with(&solid(&r)));
        assert!(r.chars().count() >= 499 || solid(&r) == solid(s));
        assert_eq!(clean_text(&r), r);
    }
    assert_eq!(clean_text(&many), "x".repeat(499));
}

#[test]
fn days_of_records() {
    let records = vec![
        used(Seconds { micros: 1_999_999 }, TOPIC_WEIGHT_ONE, "a", &[]),
        used(Seconds { micros: -1_999_999 }, TOPIC_WEIGHT_ONE, "b", &[]),
        used(Seconds { micros: i64::MAX }, TOPIC_WEIGHT_ONE, "c", &[]),
    ];
    assert_eq!(use_seconds(&records), vec![1, -1, 9_223_372_036_854]);
    assert_eq!(day_or(Some("2026-08-20".to_string()), "2026-08-21"), "2026-08-20");
    assert_eq!(day_or(None, "2026-08-21"), "2026-08-21");
    // A moment that the calendar does not reach counts as today.
    let mut pool = pool_at("far");
    pool.used_topics.push(used(Seconds { micros: i64::MAX }, TOPIC_WEIGHT_ONE, "a", &[]));
    pool.used_topics.push(used(at(86_400), TOPIC_WEIGHT_ONE, "b", &[]));
    assert!(!pool.daily_quota_reached());
    pool.used_topics.push(used(Seconds { micros: i64::MIN }, TOPIC_WEIGHT_ONE, "c", &[]));
    assert!(pool.daily_quota_reached());
}

#[test]
fn test_ready_threshold() {
    let mut pool = pool_at("ready");
    for i in 0..7 {
        pool.note_turn("user", &format!("我最近在学 Rust 第 {} 天", i));
    }
    assert!(!pool.is_ready());
    assert_eq!(pool.meaningful_user_turns(), 7);
    pool.note_turn("user", "今天又把生命周期看了一遍");
    assert!(pool.is_ready());
}

#[test]
fn test_ai_turns_do_not_count() {
    let mut pool = pool_at("ai_turn");
    for _ in 0..8 {
        pool.note_turn("ai", "优香说的不算");
    }
    assert!(!pool.is_ready());
    assert_eq!(pool.meaningful_user_turns(), 0);
}

#[test]
fn test_signal_window_cap() {
    let mut pool = pool_at("cap");
    for i in 0..70 {
        pool.note_turn("user", &format!("第 {} 条用户消息", i));
    }
    assert_eq!(pool.signals.len(), MAX_SIGNAL_TURNS);
}

#[test]
fn old_turns_are_dropped() {
    let mut pool = pool_at("old");
    pool.note_turn_at("user", "第一条消息", at(1000));
    pool.note_turn_at("assistant", "  ", at(1001));
    pool.note_turn_at("assistant", "第二条消息", at(1000 + 43_200));
    assert_eq!(pool.signals.len(), 2);
    assert_eq!(pool.signals[1].actor, "ai");
    pool.note_turn_at("user", "第三条消息", at(1001 + 43_200));
    assert_eq!(pool.signals.len(), 2);
    assert_eq!(pool.last_turn_at(), Some(at(1001 + 43_200)));
    assert_eq!(pool_at("none").last_turn_at(), None);
    assert!(pool.dirty);
}

#[test]
fn stored_turns_are_pruned() {
    let turns: Vec<TopicTurnSignal> = (0..80)
        .map(|i| TopicTurnSignal {
            actor: "user".to_string(),
            text: format!("{}", i),
            timestamp: at(i),
        })
        .collect();
    let pool = TopicPool::load_persisted(
        "d".to_string(),
        Some(at(5)),
        turns,
        vec![make_material("高相关话题", &["rust"], 85, 10)],
        Vec::new(),
        at(43_200 + 10),
    );
    assert_eq!(pool.signals.len(), 60);
    assert_eq!(pool.signals[0].text, "20");
    assert_eq!(pool.last_analysis_at, at(5));
    assert!(pool.has_pending_material() && !pool.dirty);
}

#[test]
fn turns_as_they_are_shown() {
    let mut pool = pool_at("shown");
    assert_eq!(pool.format_global_signals(), "");
    pool.note_turn_at("user", "学 Rust", at(10_000));
    pool.note_turn_at("ai", "加油", at(13_500));
    pool.note_turn_at("user", "好难啊", at(13_620));
    assert_eq!(
        pool.format_global_signals(),
        "- [1h前] 用户: 学 Rust\n- [2min前] AI: 加油\n- [0s前] 用户: 好难啊"
    );
    assert_eq!(format_age(at(89)), "89s前");
    assert_eq!(format_age(at(90)), "1min前");
    assert_eq!(format_age(at(3600)), "1h前");
    assert_eq!(format_age(at(-5)), "0s前");
    assert_eq!(format_age(Seconds { micros: i64::MIN }), "0s前");
}

#[test]
fn test_material_filter_thresholds() {
    let mut pool = pool_at("filter");
    assert!(!pool.has_pending_material());
    assert!(pool.next_ready_material().is_none());
    pool.materials.push(make_material("高相关话题", &["rust"], 85, 10));
    assert!(pool.has_pending_material());
    assert!(pool.next_ready_material().is_some());
}

#[test]
fn test_daily_quota_weight() {
    let mut pool = pool_at("quota");
    pool.used_topics.push(used(now_secs(), TOPIC_WEIGHT_ONE, "a", &[]));
    pool.used_topics.push(used(now_secs(), TOPIC_WEIGHT_ONE, "b", &[]));
    assert!(pool.daily_quota_reached());
}

#[test]
fn test_unanswered_weight_quota() {
    let mut pool = pool_at("unanswered");
    for i in 0..5 {
        pool.used_topics.push(used(now_secs(), UNANSWERED_TOPIC_WEIGHT, &format!("t{}", i), &[]));
    }
    assert!(!pool.daily_quota_reached());
    pool.used_topics.push(used(now_secs(), UNANSWERED_TOPIC_WEIGHT, "t5", &[]));
    assert!(pool.daily_quota_reached());
}

#[test]
fn quota_counts_today_only() {
    let mut pool = pool_at("today");
    for i in 0..4 {
        pool.used_topics.push(used(at(i), TOPIC_WEIGHT_ONE, "a", &[]));
    }
    let days: Vec<String> =
        ["x", "today", "x", "x"].iter().map(|s| s.to_string()).collect();
    assert!(!pool.quota_reached(&days, "today"));
    assert!(pool.quota_reached(&days, "x"));
    // A day long ago is not today.
    assert!(!pool.daily_quota_reached());
    let mut r = used(at(0), 9 * TOPIC_WEIGHT_ONE, "a", &[]);
    assert_eq!(record_weight(&r), TOPIC_WEIGHT_ONE);
    r.weight = Some(-1);
    assert_eq!(record_weight(&r), 0);
    r.weight = None;
    assert_eq!(record_weight(&r), TOPIC_WEIGHT_ONE);
}

#[test]
fn test_min_gap_4h() {
    let mut pool = pool_at("gap");
    pool.used_topics.push(used(now_secs(), TOPIC_WEIGHT_ONE, "x", &[]));
    assert!(pool.seconds_until_next_trigger().micros > 0);
    pool.used_topics.clear();
    let earlier = Seconds { micros: now_secs().micros - (4 * 3600 + 1) * 1_000_000 };
    pool.used_topics.push(used(earlier, TOPIC_WEIGHT_ONE, "y", &[]));
    assert_eq!(pool.seconds_until_next_trigger().micros, 0);
}

#[test]
fn gap_to_the_second() {
    let mut pool = pool_at("gap");
    pool.used_topics.push(used(at(1_000_000), TOPIC_WEIGHT_ONE, "x", &[]));
    pool.used_topics.push(used(at(900_000), TOPIC_WEIGHT_ONE, "y", &[]));
    assert_eq!(pool.seconds_until_next_trigger_at(at(1_000_000 + 14_399)), at(1));
    assert_eq!(pool.seconds_until_next_trigger_at(at(1_000_000 + 14_400)), at(0));
}

#[test]
fn test_dedup_keyword_intersection() {
    let mut pool = pool_at("dedup_kw");
    pool.used_topics.push(used(
        now_secs(),
        TOPIC_WEIGHT_ONE,
        "学 Rust 遇到借用检查问题",
        &["rust", "借用"],
    ));
    let dup = make_material("Rust 生命周期问题", &["rust", "所有权"], 90, 5);
    assert!(pool.topic_was_recently_used(&dup));
    let fresh = make_material("想学吉他", &["吉他", "音乐"], 80, 10);
    assert!(!pool.topic_was_recently_used(&fresh));
    let loud = make_material("别的", &[" RUST "], 80, 10);
    assert!(pool.topic_was_recently_used(&loud));
}

#[test]
fn test_dedup_bigram_fallback() {
    let mut pool = pool_at("dedup_bigram");
    pool.used_topics.push(used(now_secs(), TOPIC_WEIGHT_ONE, "考研数学复习进度", &[]));
    let dup = make_material("考研数学复习安排", &[], 85, 10);
    assert!(pool.topic_was_recently_used(&dup));
    let fresh = make_material("学做饭", &[], 80, 10);
    assert!(!pool.topic_was_recently_used(&fresh));
}

#[test]
fn used_topics_expire() {
    let mut pool = pool_at("expire");
    pool.used_topics.push(used(at(1000), TOPIC_WEIGHT_ONE, "x", &["rust"]));
    let m = make_material("y", &["rust"], 80, 10);
    assert!(pool.topic_was_recently_used_at(&m, at(1000 + 172_800)));
    assert!(!pool.topic_was_recently_used_at(&m, at(1001 + 172_800)));
}

#[test]
fn test_mark_used_and_response_upgrade() {
    let mut pool = pool_at("response");
    let m = make_material("学习 Rust", &["rust"], 90, 5);
    pool.mark_topic_used(&m);
    assert_eq!(pool.used_topics.last().unwrap().weight, Some(UNANSWERED_TOPIC_WEIGHT));
    pool.note_turn("user", "其实我还在纠结要不要继续学");
    assert_eq!(pool.used_topics.last().unwrap().weight, Some(TOPIC_WEIGHT_ONE));
}

#[test]
fn late_answers_do_not_count() {
    let mut pool = pool_at("late");
    let m = make_material("学习 Rust", &["rust"], 90, 5);
    pool.mark_topic_used_at(&m, at(1000), &Vec::new(), "d");
    assert_eq!(pool.used_topics[0].response_deadline, Some(at(1600)));
    pool.note_turn_at("ai", "优香自己说的话", at(1100));
    pool.note_turn_at("user", "来晚了的回答", at(1601));
    assert_eq!(pool.used_topics[0].weight, Some(UNANSWERED_TOPIC_WEIGHT));
    pool.maybe_upgrade_topic_response(at(1600));
    assert_eq!(pool.used_topics[0].weight, Some(TOPIC_WEIGHT_ONE));
    assert_eq!(pool.used_topics[0].response_deadline, None);
}

#[test]
fn old_records_are_pruned() {
    let mut pool = pool_at("prune");
    pool.used_topics.push(used(at(0), TOPIC_WEIGHT_ONE, "old", &[]));
    pool.used_topics.push(used(at(1), TOPIC_WEIGHT_ONE, "same day", &[]));
    pool.used_topics.push(used(at(200_000), TOPIC_WEIGHT_ONE, "recent", &[]));
    let days: Vec<String> = ["a", "b", "a"].iter().map(|s| s.to_string()).collect();
    let m = make_material("新话题", &[], 90, 5);
    pool.mark_topic_used_at(&m, at(200_001), &days, "b");
    let left: Vec<&str> = pool.used_topics.iter().map(|r| r.interest.as_str()).collect();
    assert_eq!(left, vec!["same day", "recent", "新话题"]);
}

#[test]
fn test_mark_used_clears_pending() {
    let mut pool = pool_at("clear");
    pool.materials.push(make_material("学习 Rust", &["rust"], 90, 5));
    assert!(pool.has_pending_material());
    let m = make_material("学习 Rust", &["rust"], 90, 5);
    pool.mark_topic_used(&m);
    assert!(!pool.has_pending_material());
}

#[test]
fn test_parse_topics_json() {
    let raw = r#"{"topics": [{"interest": "学习 Rust", "keywords": ["rust"], "relevance": 85, "risk": 10}]}"#;
    let topics = parse_topics_json(raw);
    assert_eq!(topics.len(), 1);
    assert_eq!(topics[0].text_at("interest"), Some("学习 Rust"));
    let fenced = format!("```json\n{}\n```", raw);
    assert_eq!(parse_topics_json(&fenced).len(), 1);
    assert_eq!(parse_topics_json(r#"{"topics": []}"#).len(), 0);
    assert_eq!(parse_topics_json("nonsense").len(), 0);
}

#[test]
fn test_bigram_similarity() {
    let a = bigram_set("考研数学复习");
    let b = bigram_set("考研数学的复习");
    let sim = topic_similarity(&a, &b);
    assert!(sim.at_least(60), "bigram 相似度应高: {:?}", sim);
    let c = bigram_set("今天天气很好");
    let sim2 = topic_similarity(&a, &c);
    assert!(!sim2.at_least(60), "无关话题相似度应低: {:?}", sim2);
}

#[test]
fn test_next_ready_material_quota_block() {
    let mut pool = pool_at("next_ready");
    pool.materials.push(make_material("学习 Rust", &["rust"], 90, 5));
    pool.used_topics.push(used(now_secs(), TOPIC_WEIGHT_ONE, "a", &[]));
    pool.used_topics.push(used(now_secs(), TOPIC_WEIGHT_ONE, "b", &[]));
    assert!(pool.next_ready_material().is_none());
}

#[test]
fn the_most_relevant_new_topic() {
    let mut pool = pool_at("best");
    pool.materials.push(make_material("普通话题", &["a"], 75, 5));
    pool.materials.push(make_material("用过的话题", &["rust"], 95, 5));
    pool.materials.push(make_material("最好的话题", &["b"], 90, 5));
    let mut done = make_material("完成的话题", &["c"], 99, 5);
    done.status = "used".to_string();
    pool.materials.push(done);
    pool.used_topics.push(used(at(1_000_000), TOPIC_WEIGHT_ONE, "x", &["rust"]));
    let later = at(1_000_000 + 14_400);
    let next = pool.next_ready_material_at(later, false).unwrap();
    assert_eq!(next.interest, "最好的话题");
    assert!(pool.next_ready_material_at(later, true).is_none());
    assert!(pool.next_ready_material_at(at(1_000_000 + 14_399), false).is_none());
}

fn reply(content: &str) -> Json {
    let said = Json::Record(vec![("content".to_string(), Json::Text(content.to_string()))]);
    let choice = Json::Record(vec![("message".to_string(), said)]);
    Json::Record(vec![("choices".to_string(), Json::List(vec![choice]))])
}

#[test]
fn topics_out_of_an_answer() {
    let answer = r#"{"topics": [
        {"interest": "短", "relevance": 99, "risk": 0},
        {"interest": "风险太高的话题", "relevance": 99, "risk": 66},
        {"interest": "  学习 Rust 语言 ", "keywords": [" rust ", "rust", "", 3, "a", "b", "c", "d", "e", "f"], "relevance": 850},
        {"interest": "默认的话题"},
        {"interest": "第五个话题在外"}
    ]}"#;
    let ms = collect_topic_candidates(&reply(answer), at(77)).unwrap();
    assert_eq!(ms.len(), 2);
    assert_eq!(ms[0].interest, "学习 Rust 语言");
    assert_eq!(ms[0].keywords, vec!["rust", "a", "b", "c", "d", "e"]);
    assert_eq!((ms[0].relevance, ms[0].risk), (100, 20));
    assert_eq!(ms[0].hook_id, format!("topic_77_{}", simple_hash("学习 Rust 语言")));
    assert_eq!((ms[1].relevance, ms[1].risk, ms[1].status.as_str()), (70, 20, "pending"));
    assert_eq!(
        collect_topic_candidates(&Json::Null, at(0)).unwrap_err(),
        "话题筛选响应无内容"
    );
}

#[test]
fn analysis() {
    let mut pool = pool_at("analysis");
    pool.note_turn_at("user", "我最近在学 Rust", at(9000));
    assert!(pool.prepare_analysis(None, at(10_000)).is_none());
    assert!(!pool.dirty);
    for i in 0..8 {
        pool.note_turn_at("user", &format!("我最近在学 Rust 第 {} 天", i), at(9000 + i));
    }
    assert!(pool.prepare_analysis(None, at(9066)).is_none());
    let body = pool.prepare_analysis(None, at(9067)).unwrap();
    assert_eq!(body.text_at("model"), Some("qwen-max"));
    assert!(pool.dirty);
    let prompt = body.items_at("messages").unwrap()[1].text_at("content").unwrap();
    assert!(prompt.contains("- [0s前] 用户: 我最近在学 Rust 第 7 天\n======以上"));

    pool.used_topics.push(used(at(9000), TOPIC_WEIGHT_ONE, "x", &["rust"]));
    let found = vec![
        make_material("第一个话题", &["吉他"], 70, 65),
        make_material("第二个话题", &["rust"], 90, 5),
        make_material("第三个话题", &["做饭"], 69, 5),
        make_material("第四个话题", &["跑步"], 80, 66),
    ];
    assert!(pool.process_now(found, at(9100)));
    assert_eq!(pool.materials.len(), 1);
    assert_eq!(pool.materials[0].interest, "第一个话题");
    assert_eq!(pool.last_analysis_at, at(9100));
    assert!(!pool.dirty);
    // A topic waits, so nothing more is looked for.
    assert!(pool.prepare_analysis(None, at(99_000)).is_none());
    assert!(!pool.process_now(Vec::new(), at(9200)));
    assert!(pool.materials.is_empty());
    assert!(pool.prepare_analysis(None, at(9200 + 599)).is_none());
    assert!(pool.prepare_analysis(None, at(9200 + 600)).is_some());
}

#[test]
fn openings() {
    let m = make_material("学习 Rust", &["rust"], 90, 5);
    let body = topic_opening_request(Some("\u{feff}{\"chat_model\": \" m \"}"), &m, "记忆", "状态");
    assert_eq!(body.text_at("model"), Some("m"));
    let messages = body.items_at("messages").unwrap();
    assert!(messages[1].text_at("content").unwrap().starts_with("最近关注：学习 Rust\n"));
    assert!(messages[1].text_at("content").unwrap().contains("\n记忆\n"));
    assert_eq!(
        generate_topic_opening(&reply("“Rust 学得怎么样啦？”")),
        Ok(Some("Rust 学得怎么样啦？".to_string()))
    );
    assert_eq!(generate_topic_opening(&reply("[PASS]")), Ok(None));
    assert_eq!(
        generate_topic_opening(&read_json("{}").unwrap()),
        Err("话题开场响应无内容".to_string())
    );
}

#[test]
fn a_second_answer_changes_nothing() {
    let mut pool = pool_at("twice");
    let m = make_material("学习 Rust", &["rust"], 90, 5);
    pool.mark_topic_used_at(&m, at(1000), &Vec::new(), "d");
    pool.maybe_upgrade_topic_response(at(1001));
    let once = pool.used_topics[0].clone();
    pool.maybe_upgrade_topic_response(at(1002));
    assert_eq!(pool.used_topics[0].weight, once.weight);
    assert_eq!(pool.used_topics[0].response_deadline, None);
}
