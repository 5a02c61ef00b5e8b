use dagent::activity::{
    app_name_lower, canonical_app_name, classify_lower, classify_window,
    format_activity_state_section, idle_seconds, ActivitySnapshot, ActivityState, ActivityStateMachine,
    Propensity, SystemSignals, WindowCategory, CERTAIN,
};
use dagent::clock::Seconds;
use dagent::text::lower_case;

fn at(secs: i64) -> Seconds {
    Seconds::of(secs)
}

fn sig(process: &str, title: &str, idle: u32, ts: i64) -> SystemSignals {
    SystemSignals {
        idle_seconds: idle,
        process_name: process.to_string(),
        window_title: title.to_string(),
        timestamp_secs: at(ts),
    }
}

#[test]
fn test_classify_window() {
    assert_eq!(classify_window("Code.exe", "main.rs - dagent"), WindowCategory::Work);
    assert_eq!(classify_window("msedge.exe", "bilibili - 视频"), WindowCategory::Entertainment);
    assert_eq!(classify_window("wechat.exe", "文件传输助手"), WindowCategory::Communication);
    assert_eq!(classify_window("keepass.exe", "KeePass"), WindowCategory::Private);
    assert_eq!(classify_window("dagent.exe", "dagent"), WindowCategory::OwnApp);
    assert_eq!(
        classify_window("msedge.exe", "哔哩哔哩 (゜-゜)つロ"),
        WindowCategory::Entertainment
    );
    assert_eq!(classify_window("unknown_app.exe", "某窗口"), WindowCategory::Unknown);
}

#[test]
fn classify_by_title_and_case() {
    assert_eq!(classify_window("foo.exe", "YouTube - cats"), WindowCategory::Entertainment);
    assert_eq!(classify_window("foo.exe", "我的网银"), WindowCategory::Private);
    assert_eq!(classify_window("DAGENT", ""), WindowCategory::OwnApp);
    // The title decides only where the program is not known.
    assert_eq!(classify_window("WINWORD.EXE", "支付"), WindowCategory::Work);
    // A sensitive program is known by a part of its name, any other by the whole of it.
    assert_eq!(classify_window("keepass-python.exe", ""), WindowCategory::Private);
    assert_eq!(classify_window("mytim.exe", ""), WindowCategory::Unknown);
    assert_eq!(classify_window("TIM.exe", ""), WindowCategory::Communication);
    assert_eq!(classify_lower("vscode.exe", ""), WindowCategory::Unknown);
    assert_eq!(classify_lower("code.exe", ""), WindowCategory::Work);
    assert_eq!(classify_lower("CODE.EXE", ""), WindowCategory::Unknown);
    assert_eq!(classify_lower("mychrome.exe", ""), WindowCategory::Unknown);
    assert_eq!(classify_lower("chrome.exe", ""), WindowCategory::Entertainment);
}

#[test]
fn the_program_decides_first() {
    for p in ["code.exe", "tim.exe", "steam.exe", "ibank.exe", "dagent"] {
        for t in ["bilibili", "密码", "x"] {
            assert_eq!(classify_window(p, t), classify_window(p, ""));
        }
    }
    assert_eq!(classify_window("mytim.exe", "微博"), WindowCategory::Entertainment);
    assert_eq!(classify_window("mytim.exe", "My BANK"), WindowCategory::Private);
}

#[test]
fn case_does_not_matter() {
    for (a, b) in [("WeChat.EXE", "wechat.exe"), ("KEEPASSXC", "keepassxc"), ("Ⅷ.EXE", "Ⅷ.exe")] {
        for (t, u) in [("YouTube ΟΔΟΣ", "youtube ΟΔΟΣ"), ("Bank", "bANK"), ("", "")] {
            assert_eq!(classify_window(a, t), classify_window(b, u));
        }
    }
    for s in ["ABC xyz", "ΟΔΥΣΣΕΥΣ A", "ΣA", "AΣ", "aΣ.B", "Istanbul İ", "ÄÖÜ ß", "你好 A"] {
        assert_eq!(lower_case(s), s.to_lowercase());
    }
}

#[test]
fn app_names() {
    assert_eq!(canonical_app_name("Code.exe", "x"), "VS Code");
    assert_eq!(canonical_app_name("Weixin.exe", "x"), "微信");
    assert_eq!(canonical_app_name("foo.exe", "  Title  "), "Title");
    assert_eq!(canonical_app_name("Foo.exe", ""), "foo");
    assert_eq!(canonical_app_name("", ""), "未知");
    let long = "一二三四五六七八九十一二三四";
    assert_eq!(canonical_app_name("foo.exe", long), "foo");
    assert_eq!(app_name_lower("a.exe.exe", ""), "a");
}

#[test]
fn labels() {
    assert_eq!(ActivityState::FocusedWork.label(), "专注工作");
    assert_eq!(ActivityState::Away.label(), "离开");
    assert_eq!(Propensity::Open.label(), "可搭话");
    assert_eq!(Propensity::Closed.label(), "勿扰");
}

#[test]
fn test_own_app_freeze() {
    let mut sm = ActivityStateMachine::new();
    let t0 = 1000;
    sm.update_signals(&sig("Code.exe", "a.rs", 10, t0));
    let snap = sm.get_snapshot_at(at(t0));
    sm.update_signals(&sig("dagent.exe", "dagent", 10, t0 + 100));
    let snap2 = sm.get_snapshot_at(at(t0 + 100));
    assert_eq!(snap2.active_window, snap.active_window, "own_app 不应改变活动窗口");
}

#[test]
fn test_focused_work_requires_dwell_and_input() {
    let mut sm = ActivityStateMachine::new();
    let t0 = 2000;
    sm.update_signals(&sig("Code.exe", "main.rs", 10, t0));
    sm.update_signals(&sig("Code.exe", "main.rs", 10, t0 + 10));
    let snap = sm.get_snapshot_at(at(t0 + 10));
    assert_eq!(snap.state, ActivityState::Idle, "驻留不足 90s 不应判定专注: {:?}", snap.state);

    sm.update_signals(&sig("Code.exe", "main.rs", 10, t0 + 100));
    let snap = sm.get_snapshot_at(at(t0 + 100));
    assert_eq!(snap.state, ActivityState::FocusedWork);
    assert_eq!(snap.propensity, Propensity::RestrictedScreenOnly);
}

#[test]
fn focus_ends_without_input() {
    let mut sm = ActivityStateMachine::new_at(at(0));
    sm.update_signals(&sig("Code.exe", "main.rs", 10, 1000));
    sm.update_signals(&sig("Code.exe", "main.rs", 300, 1090));
    assert_eq!(sm.get_snapshot_at(at(1090)).state, ActivityState::Idle);
    sm.update_signals(&sig("Code.exe", "main.rs", 299, 1090));
    assert_eq!(sm.get_snapshot_at(at(1089)).state, ActivityState::Idle);
    assert_eq!(sm.get_snapshot_at(at(1090)).state, ActivityState::FocusedWork);
}

#[test]
fn test_away_dominates() {
    let mut sm = ActivityStateMachine::new();
    let t0 = 3000;
    sm.update_signals(&sig("Code.exe", "main.rs", 10, t0));
    sm.update_signals(&sig("Code.exe", "main.rs", 1000, t0 + 20));
    let snap = sm.get_snapshot_at(at(t0 + 20));
    assert_eq!(snap.state, ActivityState::Away);
}

#[test]
fn away_over_private() {
    let mut sm = ActivityStateMachine::new_at(at(0));
    sm.update_signals(&sig("keepass.exe", "KeePass", 900, 10));
    let snap = sm.get_snapshot_at(at(10));
    assert_eq!(snap.state, ActivityState::Away);
    assert_eq!(snap.skip_probability, CERTAIN / 2);
    assert_eq!(snap.tone, "安静");
}

#[test]
fn test_private_wins() {
    let mut sm = ActivityStateMachine::new();
    let t0 = 4000;
    sm.update_signals(&sig("keepass.exe", "KeePass - 密码库", 10, t0));
    let snap = sm.get_snapshot_at(at(t0));
    assert_eq!(snap.state, ActivityState::Private);
    assert_eq!(snap.propensity, Propensity::Closed);
    assert_eq!(snap.skip_probability, CERTAIN);
}

#[test]
fn test_casual_browsing_dwell() {
    let mut sm = ActivityStateMachine::new();
    let t0 = 5000;
    sm.update_signals(&sig("msedge.exe", "bilibili", 20, t0));
    sm.update_signals(&sig("msedge.exe", "bilibili", 20, t0 + 10));
    let snap = sm.get_snapshot_at(at(t0 + 10));
    assert_eq!(snap.state, ActivityState::Idle);
    sm.update_signals(&sig("msedge.exe", "bilibili", 20, t0 + 35));
    let snap = sm.get_snapshot_at(at(t0 + 35));
    assert_eq!(snap.state, ActivityState::CasualBrowsing);
    assert_eq!(snap.propensity, Propensity::Open);
}

#[test]
fn test_chatting_immediate() {
    let mut sm = ActivityStateMachine::new();
    let t0 = 6000;
    sm.update_signals(&sig("wechat.exe", "文件传输助手", 5, t0));
    let snap = sm.get_snapshot_at(at(t0));
    assert_eq!(snap.state, ActivityState::Chatting, "聊天窗口不需驻留");
}

#[test]
fn test_transitioning_detection() {
    let mut sm = ActivityStateMachine::new();
    let t0 = 7000;
    sm.update_signals(&sig("Code.exe", "a", 5, t0));
    sm.update_signals(&sig("wechat.exe", "b", 5, t0 + 10));
    sm.update_signals(&sig("msedge.exe", "c", 5, t0 + 20));
    sm.update_signals(&sig("Code.exe", "d", 5, t0 + 30));
    sm.update_signals(&sig("unknown_app.exe", "e", 5, t0 + 40));
    sm.update_signals(&sig("wechat.exe", "f", 5, t0 + 50));
    let snap = sm.get_snapshot_at(at(t0 + 50));
    assert!(
        snap.switch_rate_5min >= 5,
        "5min 内应有 ≥5 次窗口切换: switches={}",
        snap.switch_rate_5min
    );
    assert_eq!(snap.state, ActivityState::Chatting);
}

#[test]
fn restless_on_an_unknown_window() {
    let mut sm = ActivityStateMachine::new_at(at(0));
    let programs = ["Code.exe", "wechat.exe", "msedge.exe", "Code.exe", "wechat.exe", "x.exe"];
    for (i, p) in programs.iter().enumerate() {
        sm.update_signals(&sig(p, "t", 5, 100 + i as i64));
    }
    let snap = sm.get_snapshot_at(at(110));
    assert_eq!(snap.switch_rate_5min, 5);
    assert_eq!(snap.state, ActivityState::Transitioning);
    assert_eq!(sm.guess_signature(), "Transitioning|Unknown");
    // The first switch, at 101, is five minutes ago at 401 and older at 402.
    assert_eq!(sm.get_snapshot_at(at(401)).state, ActivityState::Transitioning);
    assert_eq!(sm.get_snapshot_at(at(402)).state, ActivityState::Idle);
}

#[test]
fn history_is_bounded() {
    let mut sm = ActivityStateMachine::new_at(at(0));
    for i in 0..100 {
        let p = if i % 2 == 0 { "Code.exe" } else { "wechat.exe" };
        sm.update_signals(&sig(p, "t", 5, 100));
    }
    assert_eq!(sm.get_snapshot_at(at(100)).switch_rate_5min, 64);
}

#[test]
fn ages_and_messages() {
    let mut sm = ActivityStateMachine::new_at(at(0));
    assert_eq!(sm.guess_signature(), "Idle|None");
    sm.on_user_message_at(at(50));
    sm.update_signals(&sig("wechat.exe", "t", 5, 100));
    let first = sm.snapshot_at(at(100), 15, 3);
    assert_eq!(first.state_age_seconds, at(0));
    assert_eq!(first.seconds_since_user_msg, Some(at(50)));
    let second = sm.snapshot_at(at(130), 15, 3);
    assert_eq!(second.state_age_seconds, at(30));
    assert_eq!(second.hour, 15);
    assert_eq!(second.weekday, 3);
    // The present hour and day of the week come from the clock.
    let live = sm.get_snapshot();
    assert!(live.hour < 24 && live.weekday < 7);
}

fn snapshot() -> ActivitySnapshot {
    ActivitySnapshot {
        state: ActivityState::FocusedWork,
        state_age_seconds: Seconds { micros: 125_900_000 },
        propensity: Propensity::RestrictedScreenOnly,
        skip_probability: 0,
        tone: "简洁".to_string(),
        active_window: "VS Code".to_string(),
        idle_seconds: 130,
        switch_rate_5min: 2,
        seconds_since_user_msg: Some(at(150)),
        hour: 15,
        weekday: 3,
        activity_guess: "在写代码".to_string(),
        guess_signature: String::new(),
    }
}

#[test]
fn activity_in_words() {
    let mut s = snapshot();
    assert_eq!(
        format_activity_state_section(&s),
        "【当前活动】\n专注工作（VS Code）· 屏幕吐槽\n下午 15点 · 用户 2 分钟前 · 空闲 2 分钟\n状态持续 125 秒 · 5分钟切换 2 次窗口\n【叙述】在写代码"
    );
    s.activity_guess = String::new();
    s.seconds_since_user_msg = Some(Seconds { micros: 59_999_999 });
    s.idle_seconds = 59;
    s.hour = 0;
    assert_eq!(
        format_activity_state_section(&s),
        "【当前活动】\n专注工作（VS Code）· 屏幕吐槽\n凌晨 0点 · 用户 59 秒前\n状态持续 125 秒 · 5分钟切换 2 次窗口"
    );
    s.seconds_since_user_msg = Some(at(7200));
    s.hour = 12;
    assert!(format_activity_state_section(&s).contains("中午 12点 · 用户 2 小时前\n"));
    s.seconds_since_user_msg = None;
    s.hour = 23;
    assert!(format_activity_state_section(&s).contains("晚上 23点\n"));
}

#[test]
fn one_category_shares_its_dwelling_time() {
    let mut sm = ActivityStateMachine::new_at(at(0));
    sm.update_signals(&sig("Code.exe", "a", 5, 1000));
    sm.update_signals(&sig("winword.exe", "b", 5, 1080));
    let snap = sm.snapshot_at(at(1090), 1, 1);
    assert_eq!(snap.state, ActivityState::FocusedWork);
    assert_eq!(snap.active_window, "Word");
    assert_eq!(snap.switch_rate_5min, 0);
    // Judging once more at the same moment changes nothing.
    let again = sm.snapshot_at(at(1090), 1, 1);
    assert_eq!(again.state, ActivityState::FocusedWork);
    assert_eq!(again.state_age_seconds, snap.state_age_seconds);
}

#[test]
fn only_private_is_closed() {
    let mut sm = ActivityStateMachine::new_at(at(0));
    for p in ["Code.exe", "wechat.exe", "msedge.exe", "x.exe", "keepass.exe"] {
        sm.update_signals(&sig(p, "t", 5, 10));
        let snap = sm.snapshot_at(at(200), 1, 1);
        assert_eq!(
            snap.propensity == Propensity::Closed,
            snap.state == ActivityState::Private
        );
    }
}

#[test]
fn counters_of_input() {
    assert_eq!(idle_seconds(10_999, 1_000), 9);
    assert_eq!(idle_seconds(500, u32::MAX - 499), 1);
    assert_eq!(idle_seconds(7, 7), 0);
}
