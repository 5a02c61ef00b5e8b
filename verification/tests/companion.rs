use dagent::activity::{ActivitySnapshot, ActivityState, Propensity, SystemSignals};
use dagent::clock::{Now, Seconds, Wall};
use dagent::companion::{
    a2f_outcome, append_task_history, asr_outcome, clock_face, cua_outcome, deliver,
    describe_request, dsh_outcome, dsh_status, is_restrained, keep_guess, llm_chat, llm_chat_request, memory_add_persona, memory_append_turn, memory_get, needs_screen,
    memory_recall, memory_summary, plan_threads, proactive_shot_take, pulse, read_task, signals_text,
    source_of,
    task_history_prefix, trim_task_history, tts_failure, uses_topic, Attempt, Beat, GuessCache, Source, ThreadsPlan,
};
use dagent::config::{get_qwen_api_key, read_config};
use dagent::json::{read_json, Json};
use dagent::memory::MemoryStore;
use dagent::open_threads::OpenThreadsCache;
use dagent::proactive::{ProactiveState, ReminderKind};
use dagent::topic::TopicPool;
use dagent::{chat_model, memory_model, model_cfg, vision_model, AppState, ChatLog};

fn at(secs: i64) -> Seconds {
    Seconds::of(secs)
}

fn now() -> Now {
    Now {
        micros: 1_787_000_000_000_000,
        nanos: 0,
        wall: Wall { day: 739_848, second: 43_200, frac: 0 },
        weekday: 3,
        spaced: "2026-08-20 12:00:00".to_string(),
        tee: "2026-08-20T12:00:00".to_string(),
        compact: "20260820120000".to_string(),
        date: "2026-08-20".to_string(),
    }
}

fn json(text: &str) -> Json {
    read_json(text).unwrap()
}

#[test]
fn settings() {
    assert_eq!(chat_model(None), "qwen3.6-plus");
    assert_eq!(vision_model(None), "qwen3-vl-plus");
    assert_eq!(memory_model(None), "qwen-max");
    let cfg = "\u{feff}{\"chat_model\": \"  qwen3.6-flash \", \"vision_model\": \" \", \"memory_model\": 3}";
    assert_eq!(chat_model(Some(cfg)), "qwen3.6-flash");
    assert_eq!(vision_model(Some(cfg)), "qwen3-vl-plus");
    assert_eq!(memory_model(Some(cfg)), "qwen-max");
    assert_eq!(chat_model(Some("{")), "qwen3.6-plus");
    assert_eq!(model_cfg(Some(cfg), "chat_model", "x"), "qwen3.6-flash");
}

#[test]
fn keys() {
    let cfg = Some("{\"qianwen_api_key\": \"k\"}");
    assert_eq!(get_qwen_api_key(Some("e"), cfg), Ok("e".to_string()));
    assert_eq!(get_qwen_api_key(Some(""), cfg), Ok("k".to_string()));
    assert_eq!(get_qwen_api_key(None, cfg), Ok("k".to_string()));
    assert_eq!(
        get_qwen_api_key(None, Some("{}")),
        Err("config.json 缺少 qianwen_api_key".to_string())
    );
    assert_eq!(get_qwen_api_key(None, None), Err("未找到 config.json".to_string()));
    assert!(read_config(Some("{")).unwrap_err().starts_with("config.json 解析失败: EOF"));
}

#[test]
fn chat_log() {
    let mut log = ChatLog::new();
    for i in 0..510 {
        log.append_chat_log_at("user", &format!("{}", i), now().wall);
    }
    let all = log.get_chat_log();
    assert_eq!(all.len(), 500);
    assert_eq!(all[0].text_at("content"), Some("10"));
    assert_eq!(all[0].text_at("ts"), Some("12:00:00"));
    log.clear_chat_log();
    assert!(log.get_chat_log().is_empty());
    log.append_chat_log("user", "x");
    assert_eq!(log.get_chat_log().len(), 1);
    assert_eq!(clock_face(Wall { day: 0, second: 86_399, frac: 0 }), "23:59:59");
    assert_eq!(clock_face(Wall { day: 0, second: 86_399, frac: 1_000_000_000 }), "23:59:60");
    assert_eq!(clock_face(Wall { day: 0, second: 3_661, frac: 5 }), "01:01:01");
}

fn picture() -> Vec<u8> {
    let img = image::RgbImage::from_pixel(3, 2, image::Rgb([1, 2, 3]));
    let mut out = std::io::Cursor::new(Vec::new());
    image::DynamicImage::ImageRgb8(img)
        .write_to(&mut out, image::ImageFormat::Png)
        .unwrap();
    out.into_inner()
}

#[test]
fn talk() {
    let mut store = MemoryStore::new("m".to_string());
    let wall = now().wall;
    let hello = || vec![
        json(r#"{"role": "user", "content": "一"}"#),
        json(r#"{"role": "user", "content": "二"}"#),
        json(r#"{"role": "assistant", "content": "三"}"#),
    ];
    let body = llm_chat_request(None, &store, &Vec::new(), wall, hello(), "", false, None);
    assert_eq!(body.items_at("messages").unwrap().len(), 3);
    assert!(body.get("response_format").is_none());
    assert!(body.get("max_tokens").is_none());

    store.add_persona_fact_at("master", "大二学生", "t").unwrap();
    let body = llm_chat_request(None, &store, &Vec::new(), wall, hello(), "你好", true, None);
    let messages = body.items_at("messages").unwrap();
    assert_eq!(messages[0].text_at("role"), Some("system"));
    assert_eq!(
        messages[0].text_at("content"),
        Some("你好\n\n【关于主人】\n- 大二学生\n")
    );
    assert!(body.get("response_format").is_some());

    let shot = picture();
    let body = llm_chat_request(None, &store, &Vec::new(), wall, hello(), "", false, Some((&shot, "png")));
    assert_eq!(body.text_at("model"), Some("qwen3-vl-plus"));
    let messages = body.items_at("messages").unwrap();
    assert_eq!(messages[1].text_at("content"), Some("一"));
    let parts = messages[2].items_at("content").unwrap();
    assert_eq!(parts[1].text_at("text"), Some("二"));
    assert!(parts[0]
        .get("image_url")
        .unwrap()
        .text_at("url")
        .unwrap()
        .starts_with("data:image/jpeg;base64,/9j/"));
    let body = llm_chat_request(None, &store, &Vec::new(), wall, hello(), "", false, Some((b"x", "png")));
    assert_eq!(body.text_at("model"), Some("qwen3.6-plus"));

    let reply = json(r#"{"choices": [{"message": {"content": " 好 "}}]}"#);
    assert_eq!(llm_chat(&reply), Ok(" 好 ".to_string()));
    assert_eq!(llm_chat(&json("{\"choices\": []}")), Err("千问响应中没有内容".to_string()));
}

#[test]
fn tasks() {
    assert_eq!(task_history_prefix(None, 10), "");
    assert_eq!(task_history_prefix(Some("\n"), 10), "");
    let long = "长".repeat(200);
    let history = format!(
        "{{\"task\": \"甲\", \"ok\": true, \"result\": \"{}\"}}\nnonsense\r\n{{\"task\": \"乙\"}}\n3\n",
        long
    );
    assert_eq!(
        task_history_prefix(Some(&history), 10),
        format!(
            "【之前的任务记录（供你参考，了解主人最近在做什么）】\n1. 任务: 甲 → 成功: {}\n2. 任务: 乙 → 失败: \n3. 任务:  → 失败: \n【以上是历史记录，请据此理解上下文，然后执行下面的新任务】\n\n",
            "长".repeat(150)
        )
    );
    let last = task_history_prefix(Some(&history), 2);
    assert!(last.contains("1. 任务: 乙") && !last.contains("甲"));
    let entry = append_task_history("t", &"任".repeat(300), true, &long);
    let task = read_task(&entry);
    assert_eq!(task.task.chars().count(), 200);
    assert!(task.ok);
    assert_eq!(task.result, long);
    assert!(trim_task_history(&"x\n".repeat(50)).is_none());
    let rows: Vec<String> = (0..53).map(|i| format!("{}", i)).collect();
    let cut = trim_task_history(&rows.join("\n")).unwrap();
    assert!(cut.starts_with("3\n4\n") && cut.ends_with("51\n52\n"));
}

#[test]
fn programs() {
    assert_eq!(asr_outcome(true, " 你好 \n", ""), Ok("你好".to_string()));
    assert_eq!(asr_outcome(true, " ", "x"), Err("识别结果为空".to_string()));
    assert_eq!(asr_outcome(false, "a", " x "), Err("ASR 识别失败: x".to_string()));
    assert_eq!(dsh_outcome(true, "", ""), Err("DSH 任务完成但无输出".to_string()));
    assert_eq!(dsh_outcome(false, "", "y"), Err("DSH 任务失败: y".to_string()));
    assert_eq!(a2f_outcome(true, "{\"fps\": 30}", "").unwrap().integer_at("fps"), Some(30));
    assert_eq!(a2f_outcome(true, "", "").unwrap_err(), "Audio2Face 推理输出为空");
    assert_eq!(a2f_outcome(false, "", "z").unwrap_err(), "Audio2Face 推理失败: z");
    assert!(a2f_outcome(true, "?", "").unwrap_err().starts_with("推理结果解析失败: "));
    assert!(dsh_status(true, " {} ", "").is_ok());
    assert!(dsh_status(true, "", "").unwrap_err().starts_with("DSH 状态 JSON 解析失败: EOF"));
    assert_eq!(dsh_status(false, "", " q ").unwrap_err(), "DSH 状态解析失败: q");
    assert_eq!(tts_failure(" a ", "b\n"), "TTS 失败: qwen(a) edge-tts(b)");
    assert_eq!(cua_outcome(true, " a ", "b"), (true, "a".to_string(), String::new()));
    assert_eq!(cua_outcome(false, "a", " b "), (false, String::new(), "b".to_string()));
}

#[test]
fn commands_on_the_memory() {
    let mut store = MemoryStore::new("m".to_string());
    let wall = now().wall;
    assert_eq!(
        memory_summary(&store, &Vec::new(), wall),
        Err("记忆还是空的，多和我聊聊我就能记住你啦".to_string())
    );
    assert_eq!(
        memory_add_persona(&mut store, "dog", "x", "t"),
        Err("entity 必须是 master/neko/relationship".to_string())
    );
    assert_eq!(memory_add_persona(&mut store, "neko", "会算账", "t"), Ok("已记住".to_string()));
    assert_eq!(memory_add_persona(&mut store, "neko", "会算账", "t"), Ok("已经记住了".to_string()));
    assert_eq!(
        memory_summary(&store, &Vec::new(), wall),
        Ok("【关于优香】\n- 会算账\n".to_string())
    );
    for i in 0..12 {
        store.add_fact_at(&format!("咖啡{}", i), 5, "master", &now()).unwrap();
    }
    assert_eq!(memory_recall(&store, "咖啡", None, wall).lines().count(), 7);
    assert_eq!(memory_recall(&store, "咖啡", Some(99), wall).lines().count(), 11);
    assert_eq!(memory_recall(&store, "咖啡", Some(2), wall).lines().count(), 3);
    store.append_recent_at("user", "hi", "t").unwrap();
    let all = memory_get(&store);
    let facts = all.items_at("facts").unwrap();
    assert_eq!(facts.len(), 12);
    assert_eq!(facts[0].text_at("text"), Some("咖啡0"));
    assert!(facts[0].get("absorbed").is_none());
    assert_eq!(all.items_at("recent").unwrap().len(), 1);
    assert_eq!(all.get("persona").unwrap().items_at("neko").unwrap().len(), 1);
}

#[test]
fn a_turn_reaches_every_part() {
    let mut app = AppState::new(
        MemoryStore::new("m".to_string()),
        TopicPool::new("m".to_string()),
        at(0),
    );
    app.proactive.on_delivery_made();
    app.proactive.on_delivery_made();
    assert!(is_restrained(&app.proactive));
    app.open_threads.store_at(vec!["a".to_string()], at(0));
    let none = memory_append_turn(
        &mut app.memory, &mut app.topic, &mut app.open_threads, &mut app.proactive,
        "assistant", "优香说的一长串话", &now(),
    );
    assert_eq!(none, Ok(None));
    assert!(is_restrained(&app.proactive) && app.open_threads.has_open_threads());
    let talk = memory_append_turn(
        &mut app.memory, &mut app.topic, &mut app.open_threads, &mut app.proactive,
        "user", "我在学习", &now(),
    );
    assert_eq!(talk, Ok(Some("优香: 优香说的一长串话\n主人: 我在学习\n".to_string())));
    assert!(!is_restrained(&app.proactive) && !app.open_threads.has_open_threads());
    assert_eq!(app.topic.signals.len(), 2);
    let short = memory_append_turn(
        &mut app.memory, &mut app.topic, &mut app.open_threads, &mut app.proactive,
        "user", " 好的 ", &now(),
    );
    assert_eq!(short, Ok(None));
    let mut broken = MemoryStore::load("d".to_string(), None, Some("{}"), None, Vec::new());
    let e = memory_append_turn(
        &mut broken, &mut app.topic, &mut app.open_threads, &mut app.proactive,
        "user", "我在学习", &now(),
    );
    assert_eq!(e, Err("recent.json 不是数组".to_string()));
    assert_eq!(app.topic.signals.len(), 3);
}

#[test]
fn a_picture_waits_a_minute() {
    let mut slot = Some((at(100), "p".to_string()));
    assert_eq!(proactive_shot_take(&mut slot, at(160)), Some("p".to_string()));
    assert!(slot.is_none());
    assert_eq!(proactive_shot_take(&mut slot, at(160)), None);
    let mut slot = Some((at(100), "p".to_string()));
    assert_eq!(proactive_shot_take(&mut slot, Seconds { micros: 160_000_001 }), None);
    assert!(slot.is_none());
}

#[test]
fn guesses_are_cached() {
    let mut cache = GuessCache::new();
    assert!(cache.claim("Idle|None", at(1000)));
    assert!(!cache.claim("Idle|None", at(1000)));
    cache.keep("Idle|None", "在发呆", at(1010));
    assert!(!cache.claim("Idle|None", at(1310)));
    assert_eq!(cache.guess, "在发呆");
    assert!(cache.claim("Idle|None", at(1311)));
    assert_eq!(cache.guess, "在发呆");
    assert!(cache.claim("Chatting|Communication", at(1312)));
    assert_eq!(cache.guess, "");
    cache.give_up();
    assert!(cache.claim("Chatting|Communication", at(1313)));
}

#[test]
fn threads_that_go_with_a_remark() {
    let mut cache = OpenThreadsCache::new();
    let mut store = MemoryStore::new("m".to_string());
    cache.store_at(vec!["a".to_string()], at(100));
    assert!(matches!(
        plan_threads(&cache, &store, None, at(500)),
        ThreadsPlan::Known(ts) if ts == vec!["a".to_string()]
    ));
    cache.invalidate();
    assert!(matches!(
        plan_threads(&cache, &store, None, at(159)),
        ThreadsPlan::Known(ts) if ts.is_empty()
    ));
    assert!(matches!(
        plan_threads(&cache, &store, None, at(160)),
        ThreadsPlan::Known(ts) if ts.is_empty()
    ));
    store.append_recent_at("user", "那个 bug 啊", "t").unwrap();
    match plan_threads(&cache, &store, None, at(160)) {
        ThreadsPlan::Ask(body) => {
            let prompt = body.items_at("messages").unwrap()[1].text_at("content").unwrap();
            assert!(prompt.contains("\n主人: 那个 bug 啊\n"));
        }
        ThreadsPlan::Known(_) => panic!("the model is to be asked"),
    }
    let body = describe_request(None, &store, &focused());
    let prompt = body.items_at("messages").unwrap()[1].text_at("content").unwrap();
    assert!(prompt.contains("窗口: VS Code | 空闲: 5s") && prompt.contains("\n专注工作\n"));
    assert!(prompt.contains("\n主人: 那个 bug 啊\n"));
}

#[test]
fn a_picture_without_a_user() {
    let store = MemoryStore::new("m".to_string());
    let shot = picture();
    let said = vec![json(r#"{"role": "assistant", "content": "三"}"#)];
    let body =
        llm_chat_request(None, &store, &Vec::new(), now().wall, said, "", false, Some((&shot, "PNG")));
    let messages = body.items_at("messages").unwrap();
    assert_eq!(messages.len(), 1);
    assert_eq!(messages[0].text_at("content"), Some("三"));
}

#[test]
fn signals_in_words() {
    assert_eq!(
        signals_text(&focused()),
        "窗口: VS Code | 空闲: 5s | 状态持续: 120s | 5min切换: 1次 | 状态: FocusedWork"
    );
}

fn focused() -> ActivitySnapshot {
    ActivitySnapshot {
        state: ActivityState::FocusedWork,
        state_age_seconds: Seconds { micros: 120_900_000 },
        propensity: Propensity::RestrictedScreenOnly,
        skip_probability: 0,
        tone: String::new(),
        active_window: "VS Code".to_string(),
        idle_seconds: 5,
        switch_rate_5min: 1,
        seconds_since_user_msg: None,
        hour: 0,
        weekday: 0,
        activity_guess: String::new(),
        guess_signature: String::new(),
    }
}

fn water() -> ReminderKind {
    ReminderKind::WorkBreak { app: "a".to_string(), minutes: 30 }
}

#[test]
fn every_fourth_beat() {
    let at_ease = ActivityState::Idle;
    let mut beat = Beat::new();
    for _ in 0..3 {
        assert!(matches!(beat.strike(None, at_ease, true), Attempt::Rest));
    }
    assert!(matches!(beat.strike(None, at_ease, true), Attempt::Speak));
    // A reminder is held until the next attempt, and given whatever the pause.
    assert!(matches!(beat.strike(Some(water()), ActivityState::FocusedWork, false), Attempt::Rest));
    assert!(matches!(beat.strike(None, ActivityState::Private, false), Attempt::Rest));
    assert!(matches!(beat.strike(None, ActivityState::FocusedWork, false), Attempt::Rest));
    assert!(matches!(
        beat.strike(None, ActivityState::FocusedWork, false),
        Attempt::Remind(ReminderKind::WorkBreak { .. })
    ));
    for _ in 0..3 {
        assert!(matches!(beat.strike(None, at_ease, false), Attempt::Rest));
    }
    assert!(matches!(beat.strike(None, at_ease, false), Attempt::Rest));
    assert_eq!(source_of(true, true), Source::Reminder);
    assert_eq!(source_of(false, true), Source::Topic);
    assert_eq!(source_of(false, false), Source::Remark);
}

#[test]
fn a_held_reminder_does_not_disturb() {
    for state in [ActivityState::Private, ActivityState::Away] {
        let mut beat = Beat::new();
        assert!(matches!(
            beat.strike(Some(water()), ActivityState::FocusedWork, false),
            Attempt::Rest
        ));
        for _ in 0..2 {
            assert!(matches!(beat.strike(None, ActivityState::FocusedWork, false), Attempt::Rest));
        }
        // Nothing is tried, and the reminder is dropped.
        assert!(matches!(beat.strike(None, state, true), Attempt::Rest));
        for _ in 0..4 {
            assert!(matches!(beat.strike(None, ActivityState::Idle, false), Attempt::Rest));
        }
    }
}

#[test]
fn the_newest_reminder_is_given() {
    let slack = ReminderKind::AntiSlack {
        prev_app: "a".to_string(),
        new_app: "b".to_string(),
        minutes: 30,
    };
    let mut beat = Beat::new();
    beat.strike(Some(water()), ActivityState::FocusedWork, false);
    beat.strike(Some(slack), ActivityState::Chatting, false);
    beat.strike(None, ActivityState::Chatting, false);
    assert!(matches!(
        beat.strike(None, ActivityState::Chatting, false),
        Attempt::Remind(ReminderKind::AntiSlack { .. })
    ));
    for _ in 0..4 {
        assert!(matches!(beat.strike(None, ActivityState::Chatting, false), Attempt::Rest));
    }
}

#[test]
fn what_goes_with_what_is_said() {
    assert!(!needs_screen(Source::Reminder));
    assert!(needs_screen(Source::Topic) && needs_screen(Source::Remark));
    let opening = Ok(Some("听说你在学 Rust".to_string()));
    assert!(uses_topic(Source::Topic, &opening));
    assert!(!uses_topic(Source::Remark, &opening) && !uses_topic(Source::Reminder, &opening));
    assert!(!uses_topic(Source::Topic, &Ok(None)));
    assert!(!uses_topic(Source::Topic, &Err("x".to_string())));
}

#[test]
fn no_echo() {
    let mut p = ProactiveState::new();
    assert!(deliver(&mut p, "主人要喝水哦", at(100)));
    assert!(!deliver(&mut p, "主人要喝水哦", at(200)));
    assert_eq!(p.current_backoff_level(), 0);
    assert!(deliver(&mut p, "外面下雨了", at(300)));
    assert_eq!(p.current_backoff_level(), 1);
    let cache = OpenThreadsCache::new();
    assert!(!cache.has_open_threads());
}

#[test]
fn a_beat_in_full() {
    let mut app = AppState::new(
        MemoryStore::new("m".to_string()),
        TopicPool::new("m".to_string()),
        at(0),
    );
    let sample = |secs: i64| SystemSignals {
        idle_seconds: 20,
        process_name: "Code.exe".to_string(),
        window_title: "a.rs".to_string(),
        timestamp_secs: at(secs),
    };
    let moment = |secs: i64| {
        let mut n = now();
        n.micros = secs * 1_000_000;
        n
    };
    let t0 = 1_000_000;
    let (attempt, signature) = pulse(&mut app, &sample(t0), &moment(t0));
    assert!(matches!(attempt, Attempt::Rest));
    assert_eq!(signature, Some("Idle|Work".to_string()));
    let (_, signature) = pulse(&mut app, &sample(t0 + 5), &moment(t0 + 5));
    assert_eq!(signature, None);
    let (_, signature) = pulse(&mut app, &sample(t0 + 90), &moment(t0 + 90));
    assert_eq!(signature, Some("FocusedWork|Work".to_string()));
    let (attempt, _) = pulse(&mut app, &sample(t0 + 95), &moment(t0 + 95));
    assert!(matches!(attempt, Attempt::Speak));
    let snap = app.activity_snapshot.as_ref().unwrap();
    assert_eq!((snap.active_window.as_str(), snap.hour), ("VS Code", 12));
    assert_eq!((snap.activity_guess.as_str(), snap.guess_signature.as_str()), ("", "FocusedWork|Work"));
    // Half an hour of focus brings a reminder, which is given on the next fourth beat.
    let t1 = t0 + 90 + 1800;
    for i in 0..3 {
        let (attempt, _) = pulse(&mut app, &sample(t1 + i), &moment(t1 + i));
        assert!(matches!(attempt, Attempt::Rest));
    }
    let (attempt, _) = pulse(&mut app, &sample(t1 + 3), &moment(t1 + 3));
    assert!(matches!(
        attempt,
        Attempt::Remind(ReminderKind::WorkBreak { minutes: 30, .. })
    ));
    // One that falls due just before a password manager comes to the front is not given.
    let t2 = t1 + 100;
    let mut doing = sample(t2);
    doing.process_name = "tim.exe".to_string();
    for _ in 0..4 {
        pulse(&mut app, &doing, &moment(t2));
    }
    for t in [t2 + 10, t2 + 110, t2 + 120] {
        pulse(&mut app, &sample(t), &moment(t));
    }
    pulse(&mut app, &sample(t2 + 130), &moment(t2 + 130));
    let t3 = t2 + 110 + 1800;
    for t in [t3, t3 + 5, t3 + 10] {
        let (attempt, _) = pulse(&mut app, &sample(t), &moment(t));
        assert!(matches!(attempt, Attempt::Rest));
    }
    let mut secret = sample(t3 + 15);
    secret.process_name = "keepass.exe".to_string();
    let (attempt, _) = pulse(&mut app, &secret, &moment(t3 + 15));
    assert!(matches!(attempt, Attempt::Rest));
    assert_eq!(app.activity_snapshot.as_ref().unwrap().state, ActivityState::Private);
    for t in [t3 + 20, t3 + 25, t3 + 30, t3 + 35] {
        let (attempt, _) = pulse(&mut app, &sample(t), &moment(t));
        assert!(!matches!(attempt, Attempt::Remind(_)));
    }
}

#[test]
fn a_description_goes_with_its_activity() {
    let mut app = AppState::new(
        MemoryStore::new("m".to_string()),
        TopicPool::new("m".to_string()),
        at(0),
    );
    let sample = |secs: i64, program: &str| SystemSignals {
        idle_seconds: 20,
        process_name: program.to_string(),
        window_title: String::new(),
        timestamp_secs: at(secs),
    };
    let moment = |secs: i64| {
        let mut n = now();
        n.micros = secs * 1_000_000;
        n
    };
    let told = |app: &AppState| {
        let s = app.activity_snapshot.as_ref().unwrap();
        (s.activity_guess.clone(), s.guess_signature.clone())
    };
    let words = |a: &str, b: &str| (a.to_string(), b.to_string());
    keep_guess(&mut app, "Idle|None", "早", at(1));
    assert!(app.activity_snapshot.is_none());
    let t0 = 1_000_000;
    let (_, signature) = pulse(&mut app, &sample(t0, "code.exe"), &moment(t0));
    assert_eq!(signature, Some("Idle|Work".to_string()));
    assert_eq!(told(&app), words("", "Idle|Work"));
    keep_guess(&mut app, "Idle|Work", "在写代码", at(t0 + 2));
    assert_eq!(told(&app), words("在写代码", "Idle|Work"));
    // It is in the snapshot of every beat, and stays while a new one is asked for.
    let (_, signature) = pulse(&mut app, &sample(t0 + 5, "code.exe"), &moment(t0 + 5));
    assert_eq!(signature, None);
    assert_eq!(told(&app), words("在写代码", "Idle|Work"));
    app.activity_guess_cache.give_up();
    let (_, signature) = pulse(&mut app, &sample(t0 + 10, "code.exe"), &moment(t0 + 10));
    assert_eq!(signature, Some("Idle|Work".to_string()));
    assert_eq!(told(&app), words("在写代码", "Idle|Work"));
    // Another activity has none yet.
    let (_, signature) = pulse(&mut app, &sample(t0 + 15, "tim.exe"), &moment(t0 + 15));
    assert_eq!(signature, Some("Chatting|Communication".to_string()));
    assert_eq!(told(&app), words("", "Chatting|Communication"));
}

#[test]
fn a_clock_before_the_epoch() {
    let mut n = now();
    assert_eq!((n.secs().micros, n.roll()), (n.micros, 0));
    n.nanos = 5;
    assert_eq!(n.roll(), 5);
    n.micros = -1;
    assert_eq!((n.secs().micros, n.roll()), (0, 0));
}
