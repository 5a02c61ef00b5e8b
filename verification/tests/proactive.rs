use dagent::activity::{ActivitySnapshot, ActivityState, Propensity};
use dagent::clock::{Seconds, Wall};
use dagent::json::Json;
use dagent::memory::MemoryStore;
use dagent::proactive::{
    bigram_set, break_seed, generate_proactive, proactive_request, similarity, ProactiveState,
    ReminderKind,
};

fn at(secs: i64) -> Seconds {
    Seconds::of(secs)
}

fn snap(state: ActivityState, window: &str, idle: u32, age: i64) -> ActivitySnapshot {
    ActivitySnapshot {
        state,
        state_age_seconds: at(age),
        propensity: match state {
            ActivityState::Private => Propensity::Closed,
            ActivityState::FocusedWork => Propensity::RestrictedScreenOnly,
            _ => Propensity::Open,
        },
        skip_probability: 0,
        tone: "简洁".to_string(),
        active_window: window.to_string(),
        idle_seconds: idle,
        switch_rate_5min: 0,
        seconds_since_user_msg: Some(at(30)),
        hour: 15,
        weekday: 3,
        activity_guess: String::new(),
        guess_signature: String::new(),
    }
}

#[test]
fn test_work_break_accumulator() {
    let mut p = ProactiveState::new();
    let t0 = 1000;
    let s0 = snap(ActivityState::FocusedWork, "VS Code", 30, 0);
    let r = p.tick_at(&s0, at(t0));
    assert!(r.is_none(), "刚开始专注不应触发");
    let s1 = snap(ActivityState::FocusedWork, "VS Code", 30, 600);
    let r = p.tick_at(&s1, at(t0 + 31 * 60));
    match r {
        Some(ReminderKind::WorkBreak { minutes, app }) => {
            assert_eq!(minutes, 31);
            assert_eq!(app, "VS Code");
        }
        _ => panic!("31 分钟专注应触发喝水提醒, got {:?}", r.map(|_| "some")),
    }
    let r = p.tick_at(&s1, at(t0 + 32 * 60));
    assert!(r.is_none(), "已触发过不应重复");
}

#[test]
fn break_is_due_at_thirty_minutes() {
    let mut p = ProactiveState::new();
    let s = snap(ActivityState::FocusedWork, "VS Code", 30, 0);
    assert!(p.tick_at(&s, at(0)).is_none());
    assert!(p.tick_at(&s, Seconds { micros: 1_799_999_999 }).is_none());
    assert!(p.tick_at(&s, at(1800)).is_some());
    // Once the focus was left, a new one counts from its own start.
    assert!(p.tick_at(&snap(ActivityState::Idle, "x", 30, 0), at(1801)).is_none());
    assert!(p.tick_at(&s, at(1900)).is_none());
    assert!(p.tick_at(&s, at(1900 + 1799)).is_none());
    assert!(p.tick_at(&s, at(1900 + 1800)).is_some());
}

#[test]
fn test_anti_slack_transition() {
    let mut p = ProactiveState::new();
    let t0 = 2000;
    let s0 = snap(ActivityState::FocusedWork, "VS Code", 30, 0);
    let _ = p.tick_at(&s0, at(t0));
    let s1 = snap(ActivityState::FocusedWork, "VS Code", 30, 600);
    let _ = p.tick_at(&s1, at(t0 + 10 * 60));
    let s2 = snap(ActivityState::CasualBrowsing, "B站", 30, 0);
    let r = p.tick_at(&s2, at(t0 + 10 * 60 + 5));
    match r {
        Some(ReminderKind::AntiSlack { prev_app, new_app, minutes }) => {
            assert_eq!(prev_app, "VS Code");
            assert_eq!(new_app, "B站");
            assert_eq!(minutes, 10);
        }
        _ => panic!("专注后切休闲应触发防摸鱼, got {:?}", r.map(|_| "some")),
    }
    let s3 = snap(ActivityState::Chatting, "微信", 30, 0);
    let _ = p.tick_at(&s3, at(t0 + 11 * 60));
    let s4 = snap(ActivityState::CasualBrowsing, "B站", 30, 0);
    let _ = p.tick_at(&s4, at(t0 + 12 * 60));
}

#[test]
fn anti_slack_pause() {
    let mut p = ProactiveState::new();
    let work = snap(ActivityState::FocusedWork, "VS Code", 30, 0);
    let play = snap(ActivityState::Chatting, "微信", 30, 0);
    assert!(p.tick_at(&work, at(1000)).is_none());
    // Four minutes are too short.
    assert!(p.tick_at(&play, at(1240)).is_none());
    assert!(p.tick_at(&work, at(2000)).is_none());
    assert!(p.tick_at(&play, at(2300)).is_some());
    // Within fifteen minutes it is not said again.
    assert!(p.tick_at(&work, at(2400)).is_none());
    assert!(p.tick_at(&play, at(3199)).is_none());
    assert!(p.tick_at(&work, at(3200)).is_none());
    assert!(p.tick_at(&play, at(3500)).is_some());
}

#[test]
fn reminders_over_a_long_day() {
    let mut p = ProactiveState::new();
    let states = [
        ActivityState::FocusedWork,
        ActivityState::FocusedWork,
        ActivityState::Chatting,
        ActivityState::FocusedWork,
        ActivityState::CasualBrowsing,
        ActivityState::Idle,
    ];
    let mut looks: Vec<(i64, ActivityState)> = Vec::new();
    let mut slack: Vec<usize> = Vec::new();
    let mut breaks: Vec<usize> = Vec::new();
    let (mut now, mut n) = (1000, 7u64);
    for i in 0..3000 {
        n = (n * 1_103_515_245 + 12_345) % 2_147_483_648;
        let last = looks.last().map_or(ActivityState::Idle, |l| l.1);
        let state = if n % 4 == 0 { states[(n / 16 % 6) as usize] } else { last };
        now += (n / 64 % 400) as i64;
        looks.push((now, state));
        match p.tick_at(&snap(state, "x", 30, 0), at(now)) {
            Some(ReminderKind::AntiSlack { .. }) => slack.push(i),
            Some(ReminderKind::WorkBreak { .. }) => breaks.push(i),
            None => {}
        }
    }
    let focused = |i: usize| looks[i].1 == ActivityState::FocusedWork;
    let start = |mut i: usize| {
        while i > 0 && focused(i - 1) {
            i -= 1;
        }
        i
    };
    assert!(slack.len() > 5 && breaks.len() > 5);
    for w in slack.windows(2) {
        assert!(looks[w[1]].0 - looks[w[0]].0 >= 900);
    }
    for &i in &slack {
        assert!(matches!(looks[i].1, ActivityState::CasualBrowsing | ActivityState::Chatting));
        assert!(focused(i - 1) && looks[i].0 - looks[start(i - 1)].0 >= 300);
    }
    for w in breaks.windows(2) {
        assert!((w[0] + 1..w[1]).any(|k| !focused(k)));
    }
    for &i in &breaks {
        assert!(focused(i) && looks[i].0 - looks[start(i)].0 >= 1800);
    }
}

#[test]
fn test_similarity_dedup() {
    let mut p = ProactiveState::new();
    p.record_delivery("主人，要不要休息一下喝口水？");
    assert!(p.is_repeat("主人，要不要休息一下喝口水？"), "完全相同应拦截");
    assert!(!p.is_repeat("要不要休息一下喝口水"), "子串不一定是相似（字符级 Dice）");
    assert!(!p.is_repeat("主人，你最近在学什么？"));
}

#[test]
fn remarks_are_forgotten_after_an_hour() {
    let mut p = ProactiveState::new();
    p.record_delivery_at("主人早上好呀", at(1000));
    p.record_delivery_at("别的话题", at(4600));
    assert!(p.is_repeat("主人早上好呀"));
    p.record_delivery_at("又一个话题", at(4601));
    assert!(!p.is_repeat("主人早上好呀"));
}

#[test]
fn similarity_values() {
    let r = similarity("abcd", "abce");
    assert_eq!((r.num, r.den), (4, 6));
    let r = similarity("aaaa", "aaa");
    assert_eq!((r.num, r.den), (2, 2));
    let r = similarity("", "abc");
    assert_eq!((r.num, r.den), (0, 1));
    let r = similarity("a", "a");
    assert_eq!((r.num, r.den), (0, 1));
    let (a, b) = (similarity("主人叫小李", "主人叫小明"), similarity("主人叫小明", "主人叫小李"));
    assert_eq!((a.num, a.den), (b.num, b.den));
    assert_eq!((a.num, a.den), (6, 8));
    assert!(a.at_least(75) && !a.at_least(76) && !a.more_than(75) && a.more_than(74));
    assert!(a.exceeds(similarity("abcd", "abce")));
    let set = bigram_set("ababa");
    assert_eq!(set.len(), 2);
    assert!(set.contains(('a', 'b')) && !set.contains(('a', 'a')));
}

#[test]
fn test_should_speak_guards() {
    let p = ProactiveState::new();
    let priv_snap = snap(ActivityState::Private, "KeePass", 30, 0);
    assert!(!p.should_speak(&priv_snap, 30));
    let away_snap = snap(ActivityState::Away, "VS Code", 1000, 0);
    assert!(!p.should_speak(&away_snap, 1000));
    let work_snap = snap(ActivityState::FocusedWork, "VS Code", 5, 100);
    assert!(!p.should_speak(&work_snap, 5));
    let ok_snap = snap(ActivityState::FocusedWork, "VS Code", 30, 100);
    assert!(p.should_speak(&ok_snap, 30));
}

#[test]
fn pause_and_dice() {
    let mut p = ProactiveState::new();
    let mut s = snap(ActivityState::Idle, "桌面", 30, 100);
    p.record_delivery_at("主人好", at(10_000));
    assert!(!p.should_speak_at(&s, 30, at(10_000 + 1199), 0));
    assert!(p.should_speak_at(&s, 30, at(10_000 + 1200), 0));
    assert!(!p.should_speak_at(&s, 9, at(10_000 + 1200), 0));
    assert!(p.should_speak_at(&s, 10, at(10_000 + 1200), 0));
    s.skip_probability = 500_000_000;
    assert!(!p.should_speak_at(&s, 30, at(10_000 + 1200), 499_999_999));
    assert!(p.should_speak_at(&s, 30, at(10_000 + 1200), 500_000_000));
    // After a second remark without an answer the pause is twice as long.
    p.record_delivery_at("主人在吗", at(20_000));
    assert_eq!(p.current_backoff_level(), 1);
    s.skip_probability = 0;
    assert!(!p.should_speak_at(&s, 30, at(20_000 + 2399), 0));
    assert!(p.should_speak_at(&s, 30, at(20_000 + 2400), 0));
}

#[test]
fn test_backoff_cooldown_by_level() {
    let mut p = ProactiveState::new();
    assert_eq!(p.backoff_cooldown_seconds(), 20 * 60);
    assert_eq!(p.current_backoff_level(), 0);
    for _ in 0..4 {
        p.on_delivery_made();
    }
    assert_eq!(p.current_backoff_level(), 2);
    assert_eq!(p.backoff_cooldown_seconds(), 90 * 60);
    for _ in 0..10 {
        p.on_delivery_made();
    }
    assert_eq!(p.current_backoff_level(), 2);
}

#[test]
fn test_backoff_escalation_pace() {
    let mut p = ProactiveState::new();
    p.on_delivery_made();
    assert_eq!(p.current_backoff_level(), 0, "1 次无回应不升级");
    p.on_delivery_made();
    assert_eq!(p.current_backoff_level(), 1, "连续 2 次无回应 → level 1");
    assert_eq!(p.backoff_cooldown_seconds(), 40 * 60);
    p.on_delivery_made();
    p.on_delivery_made();
    assert_eq!(p.current_backoff_level(), 2);
    assert_eq!(p.backoff_cooldown_seconds(), 90 * 60);
}

#[test]
fn test_backoff_reset_on_user_response() {
    let mut p = ProactiveState::new();
    for _ in 0..4 {
        p.on_delivery_made();
    }
    assert_eq!(p.current_backoff_level(), 2);
    p.reset_backoff();
    assert_eq!(p.current_backoff_level(), 0);
    assert_eq!(p.backoff_cooldown_seconds(), 20 * 60);
    p.on_delivery_made();
    assert_eq!(p.current_backoff_level(), 0);
}

fn text_of<'a>(body: &'a Json, index: usize) -> &'a str {
    body.items_at("messages").unwrap()[index].text_at("content").unwrap()
}

#[test]
fn request_for_a_reminder() {
    let store = MemoryStore::new("m".to_string());
    let s = snap(ActivityState::FocusedWork, "VS Code", 30, 1800);
    let kind = ReminderKind::WorkBreak { app: "VS Code".to_string(), minutes: 32 };
    let now = Wall { day: 739_000, second: 0, frac: 0 };
    let body = proactive_request(
        Some("{\"chat_model\": \"m1\"}"),
        &store,
        &Vec::new(),
        now,
        &s,
        Some(&kind),
        "主人",
        None,
        false,
        &Vec::new(),
        7,
    );
    assert_eq!(body.text_at("model"), Some("m1"));
    assert_eq!(body.integer_at("max_tokens"), Some(100));
    assert_eq!(
        text_of(&body, 1),
        "========以下是环境提示========\n主人已经在VS Code专注工作32分钟了。\n你看着主人有点心疼，想提醒主人休息下眼睛。\n========以上是环境提示========\n\n======以下是你的记忆======\n\n======以上是你的记忆======\n\n\n======以下是主人当前状态======\n【当前活动】\n专注工作（VS Code）· 屏幕吐槽\n下午 15点 · 用户 30 秒前\n状态持续 1800 秒 · 5分钟切换 0 次窗口\n======以上是主人当前状态======\n\n请直接输出你想说的话（40字以内），或 [PASS]"
    );
    assert!(text_of(&body, 0).contains("标准傲娇"));
}

#[test]
fn request_with_a_picture_and_threads() {
    let store = MemoryStore::new("m".to_string());
    let s = snap(ActivityState::Idle, "桌面", 30, 1800);
    let now = Wall { day: 739_000, second: 0, frac: 0 };
    let threads = vec!["吃点好的".to_string(), "那个 bug".to_string()];
    let body = proactive_request(
        None, &store, &Vec::new(), now, &s, None, "主人", Some("QUJD"), true, &threads, 0,
    );
    assert_eq!(body.text_at("model"), Some("qwen3-vl-plus"));
    let messages = body.items_at("messages").unwrap();
    assert!(messages[0].text_at("content").unwrap().contains("15字以内"));
    let parts = messages[1].items_at("content").unwrap();
    assert_eq!(
        parts[0].get("image_url").unwrap().text_at("url"),
        Some("data:image/jpeg;base64,QUJD")
    );
    let text = parts[1].text_at("text").unwrap();
    assert!(text.starts_with("主人空闲着，可以随口聊两句。\n\n"));
    assert!(text.contains("======以下是未收尾的话题======\n- 吃点好的\n- 那个 bug\n======以上是未收尾的话题======"));
    let kind = ReminderKind::AntiSlack {
        prev_app: "VS Code".to_string(),
        new_app: "哔哩哔哩".to_string(),
        minutes: 25,
    };
    let body = proactive_request(
        None, &store, &Vec::new(), now, &s, Some(&kind), "主人", None, true, &threads, 0,
    );
    assert_eq!(body.text_at("model"), Some("qwen3.6-plus"));
    assert!(text_of(&body, 1).contains("主人刚才在VS Code专注工作25分钟，转头就切去了哔哩哔哩。"));
}

#[test]
fn break_seeds_rotate() {
    assert_eq!(break_seed(0), "喝口水");
    assert_eq!(break_seed(1), "活动一下");
    assert_eq!(break_seed(14), "放松一下");
}

fn reply(content: &str) -> Json {
    let said = Json::Record(vec![("content".to_string(), Json::Text(content.to_string()))]);
    let choice = Json::Record(vec![("message".to_string(), said)]);
    Json::Record(vec![("choices".to_string(), Json::List(vec![choice]))])
}

#[test]
fn remark_in_a_reply() {
    assert_eq!(
        generate_proactive(&reply(" 「主人加油哦~」 ")),
        Ok(Some("主人加油哦~".to_string()))
    );
    assert_eq!(generate_proactive(&reply("  [PASS] ")), Ok(None));
    assert_eq!(generate_proactive(&reply("")), Ok(None));
    assert_eq!(generate_proactive(&reply("\"\"")), Ok(None));
    assert_eq!(generate_proactive(&Json::Null), Err("搭话响应无内容".to_string()));
}
