use dagent::clock::{days_between, parse_local_dt, read_wall, TEE_FORMAT};
use dagent::memory::{MemoryStore, Reflection};
use dagent::memory_reflect::{
    detect_signals, id_from_digest, prepare_reflection, prepare_signals,
    reflection_id_from_facts, synthesize_reflection, Synthesis,
};
use dagent::reflections::{review_step, signal_age, Step};
use dagent::score::{rank, RANK_MINUS_TWO, RANK_ONE, RANK_TWO};
use sha2::{Digest, Sha256};

#[test]
fn test_reflection_id_deterministic() {
    let ids1 = vec!["b".to_string(), "a".to_string(), "c".to_string()];
    let ids2 = vec!["a".to_string(), "b".to_string(), "c".to_string()];
    assert_eq!(
        reflection_id_from_facts(&ids1),
        reflection_id_from_facts(&ids2),
        "同批事实（乱序）应产生相同 ID"
    );
    let ids3 = vec!["a".to_string(), "b".to_string(), "d".to_string()];
    assert_ne!(
        reflection_id_from_facts(&ids1),
        reflection_id_from_facts(&ids3),
        "不同批事实应产生不同 ID"
    );
}

#[test]
fn reflection_id_is_the_hash_of_the_sorted_ids() {
    let ids = vec!["fact_b".to_string(), "事实".to_string(), "fact_a".to_string()];
    assert_eq!(reflection_id_from_facts(&ids), "ref_fcae359c9759cee0");
    let digest = Sha256::digest("fact_a\nfact_b\n事实".as_bytes());
    assert_eq!(reflection_id_from_facts(&ids), id_from_digest(&digest));
    assert_eq!(reflection_id_from_facts(&ids).len(), 20);
    assert_eq!(reflection_id_from_facts(&Vec::new()), "ref_e3b0c44298fc1c14");
}

#[test]
fn ids_of_digests() {
    assert_eq!(id_from_digest(&[0, 1, 0x2f, 0xa0, 0xff, 6, 7, 8, 9]), "ref_00012fa0ff060708");
    assert_eq!(id_from_digest(&[0xab]), "ref_ab");
}

fn reflection(id: &str, text: &str, status: &str, created_at: &str) -> Reflection {
    Reflection {
        id: id.to_string(),
        text: text.to_string(),
        entity: "master".to_string(),
        relation_type: "trait".to_string(),
        temporal_scope: "pattern".to_string(),
        status: status.to_string(),
        source_fact_ids: vec!["f1".to_string()],
        reinforcement: 0,
        disputation: 0,
        rein_last_signal_at: Some(created_at.to_string()),
        disp_last_signal_at: None,
        created_at: created_at.to_string(),
        confirmed_at: None,
    }
}

#[test]
fn test_promote_pipeline() {
    let mut store = MemoryStore::new("m".to_string());
    let now = chrono::Local::now().format("%Y-%m-%d %H:%M:%S").to_string();
    let mut r = reflection("ref_test1", "主人是个喜欢学习的人", "pending", &now);
    r.reinforcement = 1_500_000;
    assert!(store.add_reflection(r));

    let mut r2 = reflection("ref_test2", "主人对 AI 技术充满热情", "confirmed", &now);
    r2.source_fact_ids = vec!["f2".to_string()];
    r2.reinforcement = 2_500_000;
    r2.confirmed_at = Some(now.clone());
    assert!(store.add_reflection(r2));

    let scores = vec![rank(1.5f64.to_bits()), rank(2.5f64.to_bits())];
    let (confirmed, promoted) = store.promote_reflections(&scores);
    assert_eq!(confirmed, 1, "pending→confirmed 应有 1 条");
    assert_eq!(promoted, 1, "confirmed→promoted 应有 1 条");

    let persona = store.get_persona();
    let master = persona.get("master").and_then(|a| a.as_array()).unwrap();
    assert!(
        master
            .iter()
            .any(|e| e.get("text").and_then(|t| t.as_str()) == Some("主人对 AI 技术充满热情")),
        "promoted 反思应合入 persona"
    );
}

#[test]
fn reviews_by_age_and_score() {
    let mut store = MemoryStore::new("m".to_string());
    let old = "2026-08-01 12:00:00";
    let new = "2026-08-14 12:00:01";
    let now = "2026-08-21 12:00:00";
    store.add_reflection(reflection("a", "甲", "pending", old));
    store.add_reflection(reflection("b", "乙", "pending", new));
    store.add_reflection(reflection("c", "丙", "confirmed", new));
    let mut d = reflection("d", "丁", "confirmed", new);
    d.confirmed_at = Some("2026-08-20T12:00:00".to_string());
    store.add_reflection(d);
    store.add_reflection(reflection("e", "戊", "archived", old));
    let low = rank((-2.0f64).to_bits());
    assert_eq!(store.promote_reflections_at(&vec![0, 0, 0, low, 0], now), (1, 1));
    let states: Vec<String> = store.get_reflections().iter().map(|r| r.status.clone()).collect();
    assert_eq!(states, vec!["confirmed", "pending", "promoted", "archived", "archived"]);
    assert_eq!(store.get_reflections()[0].confirmed_at, Some(now.to_string()));
    assert_eq!(store.get_reflections_by_status("archived").len(), 2);
    // A text that stands in the persona is not taken in twice.
    assert_eq!(store.add_persona_fact("master", "丙"), Ok(false));
}

#[test]
fn steps() {
    assert_eq!(review_step("pending", RANK_ONE, 0, 0), Step::Confirm);
    assert_eq!(review_step("pending", RANK_ONE - 1, 6, 0), Step::Stay);
    assert_eq!(review_step("pending", 0, 7, 0), Step::Confirm);
    assert_eq!(review_step("pending", RANK_MINUS_TWO, 0, 0), Step::Archive);
    assert_eq!(review_step("confirmed", RANK_TWO, 0, 0), Step::Promote);
    assert_eq!(review_step("confirmed", RANK_ONE, 0, 7), Step::Promote);
    assert_eq!(review_step("confirmed", RANK_MINUS_TWO - 1, 0, 6), Step::Archive);
    assert_eq!(review_step("promoted", RANK_MINUS_TWO, 99, 99), Step::Stay);
}

#[test]
fn ranks_order_doubles() {
    let values = [f64::NEG_INFINITY, -2.5, -2.0, -1e-300, 0.0, 1e-310, 0.5, 1.0, 2.0, 1e300];
    for w in values.windows(2) {
        assert!(rank(w[0].to_bits()) < rank(w[1].to_bits()));
    }
    assert_eq!(rank((-0.0f64).to_bits()), rank(0.0f64.to_bits()));
    assert_eq!(rank(f64::NAN.to_bits()), 0);
    assert_eq!(rank(1.0f64.to_bits()), RANK_ONE);
    assert_eq!(rank(2.0f64.to_bits()), RANK_TWO);
    assert_eq!(rank((-2.0f64).to_bits()), RANK_MINUS_TWO);
}

#[test]
fn times() {
    assert_eq!(days_between("2026-08-01 12:00:00", "2026-08-08T11:59:59"), 6);
    assert_eq!(days_between("2026-08-01 12:00:00", "2026-08-08T12:00:00"), 7);
    assert_eq!(days_between("2026-08-08 12:00:00", "2026-08-01 13:00:00"), -6);
    assert_eq!(days_between("nonsense", "2026-08-08T12:00:00"), 0);
    let t = parse_local_dt("1970-01-02 00:00:03").unwrap();
    assert_eq!((t.day, t.second, t.frac), (719_164, 3, 0));
    assert!(read_wall("1970-01-02 00:00:03", TEE_FORMAT).is_none());
    assert_eq!(signal_age(None, "2026-08-08T12:00:00"), None);
    assert_eq!(signal_age(Some("x"), "2026-08-08T12:00:00"), None);
    assert_eq!(signal_age(Some("2026-08-08T11:00:31"), "2026-08-08 12:00:30"), Some(59));
    // A leap second in the span counts.
    let a = "2016-12-31 23:58:59";
    let b = "2016-12-31 23:59:60";
    let x = chrono::NaiveDateTime::parse_from_str(a, "%Y-%m-%d %H:%M:%S").unwrap();
    let y = chrono::NaiveDateTime::parse_from_str(b, "%Y-%m-%d %H:%M:%S").unwrap();
    assert_eq!(signal_age(Some(a), b), Some((y - x).num_minutes()));
    assert_eq!(signal_age(Some(b), a), Some((x - y).num_minutes()));
    let c = "2017-01-01 00:00:59";
    let z = chrono::NaiveDateTime::parse_from_str(c, "%Y-%m-%d %H:%M:%S").unwrap();
    assert_eq!(signal_age(Some(b), c), Some((z - y).num_minutes()));
}

#[test]
fn signals_change_evidence() {
    let mut store = MemoryStore::new("m".to_string());
    store.add_reflection(reflection("a", "甲", "pending", "t"));
    assert!(!store.add_reflection(reflection("a", "乙", "pending", "t")));
    store.apply_signal_at("a", 500_000, "now");
    store.apply_signal_at("a", -1_000_000, "later");
    store.apply_signal_at("nobody", 500_000, "now");
    let r = &store.get_reflections()[0];
    assert_eq!(r.text, "甲");
    assert_eq!((r.reinforcement, r.disputation), (500_000, 1_000_000));
    assert_eq!(r.rein_last_signal_at, Some("now".to_string()));
    assert_eq!(r.disp_last_signal_at, Some("later".to_string()));
    store.apply_signal("a", 0);
    assert!(store.get_reflections()[0].rein_last_signal_at != Some("now".to_string()));
    assert!(store.update_reflection("a", |mut r| {
        r.text = "丙".to_string();
        r
    }));
    assert!(!store.update_reflection("b", |r| r));
    assert_eq!(store.get_reflections()[0].text, "丙");
}

fn store_with_facts(n: usize) -> MemoryStore {
    let mut store = MemoryStore::new("m".to_string());
    for i in 0..n {
        store.add_fact(&format!("第{}件事情", i), 5 + (i as i32 % 5), "master").unwrap();
    }
    store
}

#[test]
fn a_reflection_is_drawn() {
    let mut few = store_with_facts(4);
    assert!(matches!(prepare_reflection(&mut few, None, "优香", "主人"), Synthesis::TooFew));

    let mut store = store_with_facts(25);
    let (pool, request) = match prepare_reflection(&mut store, None, "优香", "主人") {
        Synthesis::Ask { pool, request } => (pool, request),
        _ => panic!("there are facts enough"),
    };
    assert_eq!(pool.len(), 20);
    assert_eq!(pool[0].importance, 9);
    assert_eq!(request.text_at("model"), Some("qwen-max"));
    let prompt = request.items_at("messages").unwrap()[0].text_at("content").unwrap();
    assert!(prompt.contains("======以下为事实======\n- 第"));
    assert!(prompt.contains(" (importance: 9)\n"));

    let broken = synthesize_reflection(&mut store, &pool, "x", "t").unwrap_err();
    assert!(broken.starts_with("反思解析失败: ") && broken.ends_with("（原始: x）"));
    assert_eq!(
        synthesize_reflection(&mut store, &pool, "{\"reflection\": \" \"}", "t"),
        Err("反思内容为空".to_string())
    );
    assert_eq!(store.get_unabsorbed_facts(5).len(), 25);

    let answer = "```json\n{\"entity\": \"neko\", \"reflection\": \" 爱学习 \"}\n```";
    assert_eq!(synthesize_reflection(&mut store, &pool, answer, "t"), Ok(true));
    let r = &store.get_reflections()[0];
    assert_eq!((r.text.as_str(), r.entity.as_str(), r.status.as_str()), ("爱学习", "neko", "pending"));
    assert_eq!(r.temporal_scope, "pattern");
    assert_eq!(r.reinforcement, 600_000);
    assert_eq!(r.source_fact_ids.len(), 20);
    assert_eq!(store.get_unabsorbed_facts(5).len(), 5);
    // The same facts give nothing new.
    assert_eq!(synthesize_reflection(&mut store, &pool, answer, "t"), Ok(false));
    assert_eq!(store.get_reflections().len(), 1);

    // With five facts left, one more is drawn, and the old facts are shown.
    let (pool, request) = match prepare_reflection(&mut store, None, "优香", "主人") {
        Synthesis::Ask { pool, request } => (pool, request),
        _ => panic!("there are facts enough"),
    };
    assert_eq!(pool.len(), 5);
    let prompt = request.items_at("messages").unwrap()[0].text_at("content").unwrap();
    assert!(prompt.contains("以下为此前已确认的相关事实（避免新反思与其矛盾）：\n- 第"));
}

#[test]
fn known_facts_are_marked() {
    let mut store = store_with_facts(5);
    let ids: Vec<String> = store.get_unabsorbed_facts(5).iter().map(|f| f.id.clone()).collect();
    let id = reflection_id_from_facts(&ids);
    store.add_reflection(reflection(&id, "甲", "pending", "t"));
    assert!(matches!(prepare_reflection(&mut store, None, "优香", "主人"), Synthesis::Known));
    assert!(store.get_unabsorbed_facts(5).is_empty());
}

#[test]
fn facts_are_held_against_reflections() {
    let mut store = store_with_facts(3);
    assert!(prepare_signals(&store, None).is_none());
    store.add_reflection(reflection("r1", "甲", "pending", "t"));
    store.add_reflection(reflection("r2", "乙", "confirmed", "t"));
    store.add_reflection(reflection("r3", "丙", "archived", "t"));
    let check = prepare_signals(&store, Some("{\"memory_model\": \"big\"}")).unwrap();
    assert_eq!(check.observations.len(), 2);
    assert_eq!(check.facts.len(), 3);
    assert_eq!(check.request.text_at("model"), Some("big"));
    let prompt = check.request.items_at("messages").unwrap()[0].text_at("content").unwrap();
    assert!(prompt.contains("\nreflection.master.r1: 甲\nreflection.master.r2: 乙\n"));
    let answer = r#"{"signals": [
        {"target_id": "r1", "signal": "reinforces"},
        {"target_id": "r2", "signal": "negates"},
        {"target_id": "r3", "signal": "negates"},
        {"target_id": "r2", "signal": "shrugs"},
        {"signal": "negates"}
    ]}"#;
    assert_eq!(
        detect_signals(&mut store, &check.observations, &check.facts, "x", "now"),
        Err("信号解析失败: expected value at line 1 column 1".to_string())
    );
    assert_eq!(store.get_pending_signal_facts(5, 10).len(), 3);
    assert_eq!(
        detect_signals(&mut store, &check.observations, &check.facts, answer, "now"),
        Ok((2, 3))
    );
    let rs = store.get_reflections();
    assert_eq!((rs[0].reinforcement, rs[0].disputation), (250_000, 0));
    assert_eq!((rs[1].reinforcement, rs[1].disputation), (0, 1_000_000));
    // The facts are not asked about again.
    assert!(store.get_pending_signal_facts(5, 10).is_empty());
    assert!(prepare_signals(&store, None).is_none());
}
