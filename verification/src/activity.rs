//! What the user is doing, judged by fixed rules from the window in front and the
//! time since the last input.

use crate::clock::{local_now, quotient, Seconds};
use crate::text::{
    ascii_lowered, byte_len, byte_size, contains_any, cut_back, decimal, decimal_i64, decimal_u64,
    ends_with, equals_any, has_one, has_suffix, is_empty, is_one, lower_case, lowercase_of,
    lowered, same_text, str_views, trim, trim_end_text, trimmed,
};
use vstd::prelude::*;

verus! {

// ---------------------------------------------------------------------------
// Categories
// ---------------------------------------------------------------------------

/// What the user is doing.
#[derive(Debug, Clone, Copy, PartialEq, Eq, Structural)]
pub enum ActivityState {
    /// No input for a quarter of an hour.
    Away,
    /// A sensitive program is in front: never to be disturbed.
    Private,
    /// At work for a while, with recent input.
    FocusedWork,
    /// At leisure for a while.
    CasualBrowsing,
    /// A chat or a meeting is in front.
    Chatting,
    /// Windows change quickly.
    Transitioning,
    /// Present, with nothing that stands out.
    Idle,
}

impl ActivityState {
    /// The name shown to the user.
    pub open spec fn label_text(self) -> Seq<char> {
        match self {
            ActivityState::Away => "离开"@,
            ActivityState::Private => "隐私模式"@,
            ActivityState::FocusedWork => "专注工作"@,
            ActivityState::CasualBrowsing => "休闲浏览"@,
            ActivityState::Chatting => "聊天中"@,
            ActivityState::Transitioning => "切换中"@,
            ActivityState::Idle => "空闲"@,
        }
    }

    /// The name shown to the user.
    pub fn label(&self) -> (r: &'static str)
        ensures
            r@ == self.label_text(),
    {
        match self {
            ActivityState::Away => "离开",
            ActivityState::Private => "隐私模式",
            ActivityState::FocusedWork => "专注工作",
            ActivityState::CasualBrowsing => "休闲浏览",
            ActivityState::Chatting => "聊天中",
            ActivityState::Transitioning => "切换中",
            ActivityState::Idle => "空闲",
        }
    }

    /// The name of the variant.
    pub open spec fn name_text(self) -> Seq<char> {
        match self {
            ActivityState::Away => "Away"@,
            ActivityState::Private => "Private"@,
            ActivityState::FocusedWork => "FocusedWork"@,
            ActivityState::CasualBrowsing => "CasualBrowsing"@,
            ActivityState::Chatting => "Chatting"@,
            ActivityState::Transitioning => "Transitioning"@,
            ActivityState::Idle => "Idle"@,
        }
    }

    /// The name of the variant.
    pub fn name(&self) -> (r: &'static str)
        ensures
            r@ == self.name_text(),
    {
        match self {
            ActivityState::Away => "Away",
            ActivityState::Private => "Private",
            ActivityState::FocusedWork => "FocusedWork",
            ActivityState::CasualBrowsing => "CasualBrowsing",
            ActivityState::Chatting => "Chatting",
            ActivityState::Transitioning => "Transitioning",
            ActivityState::Idle => "Idle",
        }
    }
}

/// How open the user is to being spoken to.
#[derive(Debug, Clone, Copy, PartialEq, Eq, Structural)]
pub enum Propensity {
    /// Not at all.
    Closed,
    /// Only with a remark on the screen.
    RestrictedScreenOnly,
    /// In any way.
    Open,
}

impl Propensity {
    /// The name shown to the user.
    pub open spec fn label_text(self) -> Seq<char> {
        match self {
            Propensity::Closed => "勿扰"@,
            Propensity::RestrictedScreenOnly => "屏幕吐槽"@,
            Propensity::Open => "可搭话"@,
        }
    }

    /// The name shown to the user.
    pub fn label(&self) -> (r: &'static str)
        ensures
            r@ == self.label_text(),
    {
        match self {
            Propensity::Closed => "勿扰",
            Propensity::RestrictedScreenOnly => "屏幕吐槽",
            Propensity::Open => "可搭话",
        }
    }
}

/// What kind of window is in front.
#[derive(Debug, Clone, Copy, PartialEq, Eq, Structural)]
pub enum WindowCategory {
    Work,
    Communication,
    Entertainment,
    Private,
    OwnApp,
    Unknown,
}

impl WindowCategory {
    /// The name of the variant.
    pub open spec fn name_text(self) -> Seq<char> {
        match self {
            WindowCategory::Work => "Work"@,
            WindowCategory::Communication => "Communication"@,
            WindowCategory::Entertainment => "Entertainment"@,
            WindowCategory::Private => "Private"@,
            WindowCategory::OwnApp => "OwnApp"@,
            WindowCategory::Unknown => "Unknown"@,
        }
    }

    /// The name of the variant.
    pub fn name(&self) -> (r: &'static str)
        ensures
            r@ == self.name_text(),
    {
        match self {
            WindowCategory::Work => "Work",
            WindowCategory::Communication => "Communication",
            WindowCategory::Entertainment => "Entertainment",
            WindowCategory::Private => "Private",
            WindowCategory::OwnApp => "OwnApp",
            WindowCategory::Unknown => "Unknown",
        }
    }
}

// ---------------------------------------------------------------------------
// Windows by program and title
// ---------------------------------------------------------------------------

/// Parts of the names of password managers and banking programs.
pub open spec fn private_programs() -> Seq<Seq<char>> {
    seq![
        "keepass"@, "bitwarden"@, "1password"@, "enpass"@, "ibank"@,
    ]
}

fn private_programs_table() -> (r: Vec<&'static str>)
    ensures
        str_views(r@) == private_programs(),
{
    let r: Vec<&'static str> = vec![
        "keepass", "bitwarden", "1password", "enpass", "ibank",
    ];
    proof {
        assert(str_views(r@) =~= private_programs());
    }
    r
}

/// The names of editors, terminals and office programs.
pub open spec fn work_programs() -> Seq<Seq<char>> {
    seq![
        "code.exe"@, "devenv.exe"@, "idea64.exe"@, "pycharm64.exe"@, "goland64.exe"@,
        "rider64.exe"@, "clion64.exe"@, "webstorm64.exe"@, "datagrip64.exe"@, "wps.exe"@,
        "winword.exe"@, "excel.exe"@, "powerpnt.exe"@, "onenote.exe"@, "outlook.exe"@,
        "obsidian.exe"@, "notion.exe"@, "typora.exe"@, "marktext.exe"@, "figma.exe"@,
        "axure.exe"@, "xmind.exe"@, "drawio.exe"@, "notepad.exe"@, "notepad++.exe"@,
        "windows_terminal.exe"@, "windowsterminal.exe"@, "cmd.exe"@, "powershell.exe"@,
        "pwsh.exe"@, "wezterm.exe"@, "alacritty.exe"@, "konsole.exe"@, "vsdbg.exe"@,
        "python.exe"@, "node.exe"@, "java.exe"@,
    ]
}

fn work_programs_table() -> (r: Vec<&'static str>)
    ensures
        str_views(r@) == work_programs(),
{
    let r: Vec<&'static str> = vec![
        "code.exe", "devenv.exe", "idea64.exe", "pycharm64.exe", "goland64.exe", "rider64.exe",
        "clion64.exe", "webstorm64.exe", "datagrip64.exe", "wps.exe", "winword.exe",
        "excel.exe", "powerpnt.exe", "onenote.exe", "outlook.exe", "obsidian.exe",
        "notion.exe", "typora.exe", "marktext.exe", "figma.exe", "axure.exe", "xmind.exe",
        "drawio.exe", "notepad.exe", "notepad++.exe", "windows_terminal.exe",
        "windowsterminal.exe", "cmd.exe", "powershell.exe", "pwsh.exe", "wezterm.exe",
        "alacritty.exe", "konsole.exe", "vsdbg.exe", "python.exe", "node.exe", "java.exe",
    ];
    proof {
        assert(str_views(r@) =~= work_programs());
    }
    r
}

/// The names of chat and meeting programs.
pub open spec fn chat_programs() -> Seq<Seq<char>> {
    seq![
        "wechat.exe"@, "weixin.exe"@, "qq.exe"@, "tim.exe"@, "dingtalk.exe"@, "feishu.exe"@,
        "lark.exe"@, "telegram.exe"@, "slack.exe"@, "teams.exe"@, "discord.exe"@, "zoom.exe"@,
        "microsoftteams.exe"@, "kook.exe"@, "vxwork.exe"@,
    ]
}

fn chat_programs_table() -> (r: Vec<&'static str>)
    ensures
        str_views(r@) == chat_programs(),
{
    let r: Vec<&'static str> = vec![
        "wechat.exe", "weixin.exe", "qq.exe", "tim.exe", "dingtalk.exe", "feishu.exe",
        "lark.exe", "telegram.exe", "slack.exe", "teams.exe", "discord.exe", "zoom.exe",
        "microsoftteams.exe", "kook.exe", "vxwork.exe",
    ];
    proof {
        assert(str_views(r@) =~= chat_programs());
    }
    r
}

/// The names of browsers, players and game platforms.
pub open spec fn leisure_programs() -> Seq<Seq<char>> {
    seq![
        "msedge.exe"@, "chrome.exe"@, "firefox.exe"@, "360se.exe"@, "qqbrowser.exe"@,
        "potplayer.exe"@, "vlc.exe"@, "wmplayer.exe"@, "cloudmusic.exe"@, "qqmusic.exe"@,
        "bilibili.exe"@, "steam.exe"@, "wegame.exe"@, "epicgameslauncher.exe"@,
    ]
}

fn leisure_programs_table() -> (r: Vec<&'static str>)
    ensures
        str_views(r@) == leisure_programs(),
{
    let r: Vec<&'static str> = vec![
        "msedge.exe", "chrome.exe", "firefox.exe", "360se.exe", "qqbrowser.exe",
        "potplayer.exe", "vlc.exe", "wmplayer.exe", "cloudmusic.exe", "qqmusic.exe",
        "bilibili.exe", "steam.exe", "wegame.exe", "epicgameslauncher.exe",
    ];
    proof {
        assert(str_views(r@) =~= leisure_programs());
    }
    r
}

/// Parts of titles that tell of videos and social media.
pub open spec fn leisure_titles() -> Seq<Seq<char>> {
    seq![
        "bilibili"@, "youtube"@, "douyin"@, "微博"@, "weibo"@, "抖音"@, "爱奇艺"@, "iqiyi"@, "优酷"@,
        "youku"@, "腾讯视频"@, "西瓜视频"@,
    ]
}

fn leisure_titles_table() -> (r: Vec<&'static str>)
    ensures
        str_views(r@) == leisure_titles(),
{
    let r: Vec<&'static str> = vec![
        "bilibili", "youtube", "douyin", "微博", "weibo", "抖音", "爱奇艺", "iqiyi", "优酷", "youku",
        "腾讯视频", "西瓜视频",
    ];
    proof {
        assert(str_views(r@) =~= leisure_titles());
    }
    r
}

/// Parts of titles that tell of passwords and payment.
pub open spec fn private_titles() -> Seq<Seq<char>> {
    seq![
        "keepass"@, "bitwarden"@, "密码"@, "网银"@, "银行"@, "bank"@, "支付"@,
    ]
}

fn private_titles_table() -> (r: Vec<&'static str>)
    ensures
        str_views(r@) == private_titles(),
{
    let r: Vec<&'static str> = vec![
        "keepass", "bitwarden", "密码", "网银", "银行", "bank", "支付",
    ];
    proof {
        assert(str_views(r@) =~= private_titles());
    }
    r
}

/// The category that a program's name tells, in lower case: a sensitive program by
/// a part of its name, any other by its whole name.
pub open spec fn category_by_program(p: Seq<char>) -> WindowCategory {
    if p == "dagent.exe"@ || p == "dagent"@ {
        WindowCategory::OwnApp
    } else if has_one(p, private_programs()) {
        WindowCategory::Private
    } else if is_one(p, work_programs()) {
        WindowCategory::Work
    } else if is_one(p, chat_programs()) {
        WindowCategory::Communication
    } else if is_one(p, leisure_programs()) {
        WindowCategory::Entertainment
    } else {
        WindowCategory::Unknown
    }
}

/// The category that parts of a title tell, in lower case.
pub open spec fn category_by_title(t: Seq<char>) -> WindowCategory {
    if has_one(t, leisure_titles()) {
        WindowCategory::Entertainment
    } else if has_one(t, private_titles()) {
        WindowCategory::Private
    } else {
        WindowCategory::Unknown
    }
}

/// The category of a window by the lower case of its program's name and title.
/// The program decides first; the title decides where no program is known.
pub open spec fn category_of_lower(p: Seq<char>, t: Seq<char>) -> WindowCategory {
    if category_by_program(p) != WindowCategory::Unknown {
        category_by_program(p)
    } else {
        category_by_title(t)
    }
}

/// The category of a window by its program's name and title, in any case.
pub open spec fn category_of(process_name: Seq<char>, window_title: Seq<char>) -> WindowCategory {
    category_of_lower(lowered(process_name), lowered(window_title))
}

/// The category of a window by the lower case of its program's name and title.
pub fn classify_lower(p: &str, t: &str) -> (r: WindowCategory)
    ensures
        r == category_of_lower(p@, t@),
{
    if same_text(p, "dagent.exe") || same_text(p, "dagent") {
        return WindowCategory::OwnApp;
    }
    if contains_any(p, &private_programs_table()) {
        return WindowCategory::Private;
    }
    if equals_any(p, &work_programs_table()) {
        return WindowCategory::Work;
    }
    if equals_any(p, &chat_programs_table()) {
        return WindowCategory::Communication;
    }
    if equals_any(p, &leisure_programs_table()) {
        return WindowCategory::Entertainment;
    }
    if contains_any(t, &leisure_titles_table()) {
        return WindowCategory::Entertainment;
    }
    if contains_any(t, &private_titles_table()) {
        return WindowCategory::Private;
    }
    WindowCategory::Unknown
}

/// The category of a window by its program's name and title. ASCII text is compared
/// letter by letter in lower case.
pub fn classify_window(process_name: &str, window_title: &str) -> (r: WindowCategory)
    ensures
        r == category_of(process_name@, window_title@),
        vstd::utf8::is_ascii_chars(process_name@) ==> r == category_of_lower(
            ascii_lowered(process_name@),
            lowered(window_title@),
        ),
        vstd::utf8::is_ascii_chars(window_title@) ==> r == category_of_lower(
            lowered(process_name@),
            ascii_lowered(window_title@),
        ),
        vstd::utf8::is_ascii_chars(process_name@) && vstd::utf8::is_ascii_chars(window_title@)
            ==> r == category_of_lower(
            ascii_lowered(process_name@),
            ascii_lowered(window_title@),
        ),
{
    let p = lower_case(process_name);
    let t = lower_case(window_title);
    classify_lower(p.as_str(), t.as_str())
}

/// A sensitive program is private whatever its title says.
pub proof fn law_private_program_first(p: Seq<char>, t: Seq<char>)
    requires
        has_one(p, private_programs()),
        p != "dagent.exe"@,
        p != "dagent"@,
    ensures
        category_of_lower(p, t) == WindowCategory::Private,
{
}

/// No text of a table of nonempty texts stands in the empty text.
proof fn lemma_none_in_empty(table: Seq<Seq<char>>)
    requires
        forall|i: int| 0 <= i < table.len() ==> (#[trigger] table[i]).len() > 0,
    ensures
        !has_one(""@, table),
{
    reveal_strlit("");
}

/// The program decides first and the title is a fallback: a category that the program
/// has under an empty title it has under every title, and where it has none there, a
/// title can tell of leisure or of something private and of nothing else.
pub proof fn law_program_decides_first(p: Seq<char>, t: Seq<char>)
    ensures
        category_of_lower(p, ""@) != WindowCategory::Unknown ==> category_of_lower(p, t)
            == category_of_lower(p, ""@),
        category_of_lower(p, ""@) == WindowCategory::Unknown ==> {
            ||| category_of_lower(p, t) == WindowCategory::Entertainment
            ||| category_of_lower(p, t) == WindowCategory::Private
            ||| category_of_lower(p, t) == WindowCategory::Unknown
        },
{
    reveal_strlit("bilibili");
    reveal_strlit("youtube");
    reveal_strlit("douyin");
    reveal_strlit("微博");
    reveal_strlit("weibo");
    reveal_strlit("抖音");
    reveal_strlit("爱奇艺");
    reveal_strlit("iqiyi");
    reveal_strlit("优酷");
    reveal_strlit("youku");
    reveal_strlit("腾讯视频");
    reveal_strlit("西瓜视频");
    reveal_strlit("keepass");
    reveal_strlit("bitwarden");
    reveal_strlit("密码");
    reveal_strlit("网银");
    reveal_strlit("银行");
    reveal_strlit("bank");
    reveal_strlit("支付");
    lemma_none_in_empty(leisure_titles());
    lemma_none_in_empty(private_titles());
}

/// The case of ASCII letters never matters, neither in the program's name nor in the
/// title.
pub proof fn law_ascii_case_is_ignored(
    p: Seq<char>,
    q: Seq<char>,
    t: Seq<char>,
    u: Seq<char>,
)
    requires
        ascii_lowered(p) == ascii_lowered(q),
        ascii_lowered(t) == ascii_lowered(u),
    ensures
        category_of(p, t) == category_of(q, u),
{
}

/// The endings of the names of known programs, with the names shown for them.
pub open spec fn known_programs() -> Seq<(Seq<char>, Seq<char>)> {
    seq![
        ("code.exe"@, "VS Code"@),
        ("devenv.exe"@, "Visual Studio"@),
        ("idea64.exe"@, "IntelliJ IDEA"@),
        ("pycharm64.exe"@, "PyCharm"@),
        ("wps.exe"@, "WPS"@),
        ("winword.exe"@, "Word"@),
        ("excel.exe"@, "Excel"@),
        ("powerpnt.exe"@, "PowerPoint"@),
        ("obsidian.exe"@, "Obsidian"@),
        ("notion.exe"@, "Notion"@),
        ("figma.exe"@, "Figma"@),
        ("msedge.exe"@, "Edge"@),
        ("chrome.exe"@, "Chrome"@),
        ("firefox.exe"@, "Firefox"@),
        ("wechat.exe"@, "微信"@),
        ("weixin.exe"@, "微信"@),
        ("qq.exe"@, "QQ"@),
        ("dingtalk.exe"@, "钉钉"@),
        ("feishu.exe"@, "飞书"@),
        ("lark.exe"@, "飞书"@),
        ("telegram.exe"@, "Telegram"@),
        ("discord.exe"@, "Discord"@),
        ("potplayer.exe"@, "PotPlayer"@),
        ("cloudmusic.exe"@, "网易云音乐"@),
        ("qqmusic.exe"@, "QQ音乐"@),
        ("bilibili.exe"@, "哔哩哔哩"@),
        ("steam.exe"@, "Steam"@),
        ("windows_terminal.exe"@, "终端"@),
        ("windowsterminal.exe"@, "终端"@),
        ("cmd.exe"@, "命令行"@),
        ("powershell.exe"@, "PowerShell"@),
        ("pwsh.exe"@, "PowerShell"@),
    ]
}

/// The characters of each pair of a table.
pub open spec fn pair_views(v: Seq<(&'static str, &'static str)>) -> Seq<(Seq<char>, Seq<char>)> {
    v.map_values(|p: (&'static str, &'static str)| (p.0@, p.1@))
}

fn known_programs_table() -> (r: Vec<(&'static str, &'static str)>)
    ensures
        pair_views(r@) == known_programs(),
{
    let r: Vec<(&'static str, &'static str)> = vec![
        ("code.exe", "VS Code"),
        ("devenv.exe", "Visual Studio"),
        ("idea64.exe", "IntelliJ IDEA"),
        ("pycharm64.exe", "PyCharm"),
        ("wps.exe", "WPS"),
        ("winword.exe", "Word"),
        ("excel.exe", "Excel"),
        ("powerpnt.exe", "PowerPoint"),
        ("obsidian.exe", "Obsidian"),
        ("notion.exe", "Notion"),
        ("figma.exe", "Figma"),
        ("msedge.exe", "Edge"),
        ("chrome.exe", "Chrome"),
        ("firefox.exe", "Firefox"),
        ("wechat.exe", "微信"),
        ("weixin.exe", "微信"),
        ("qq.exe", "QQ"),
        ("dingtalk.exe", "钉钉"),
        ("feishu.exe", "飞书"),
        ("lark.exe", "飞书"),
        ("telegram.exe", "Telegram"),
        ("discord.exe", "Discord"),
        ("potplayer.exe", "PotPlayer"),
        ("cloudmusic.exe", "网易云音乐"),
        ("qqmusic.exe", "QQ音乐"),
        ("bilibili.exe", "哔哩哔哩"),
        ("steam.exe", "Steam"),
        ("windows_terminal.exe", "终端"),
        ("windowsterminal.exe", "终端"),
        ("cmd.exe", "命令行"),
        ("powershell.exe", "PowerShell"),
        ("pwsh.exe", "PowerShell"),
    ];
    proof {
        assert(pair_views(r@) =~= known_programs());
    }
    r
}

/// The name in the first pair whose ending `p` has.
pub open spec fn first_known(p: Seq<char>, table: Seq<(Seq<char>, Seq<char>)>) -> Option<Seq<char>>
    decreases table.len(),
{
    if table.len() == 0 {
        None
    } else if has_suffix(p, table[0].0) {
        Some(table[0].1)
    } else {
        first_known(p, table.drop_first())
    }
}

/// The name shown for a program, by the lower case of its own: the known one, or
/// else a title of at most forty bytes, or else its own without `.exe`.
pub open spec fn app_name_of_lower(p: Seq<char>, window_title: Seq<char>) -> Seq<char> {
    match first_known(p, known_programs()) {
        Some(name) => name,
        None => {
            let title = trimmed(window_title);
            if title.len() > 0 && byte_size(title) <= 40 {
                title
            } else if p.len() > 0 {
                cut_back(p, ".exe"@)
            } else {
                "未知"@
            }
        },
    }
}

/// The name shown for a program.
pub open spec fn app_name_of(process_name: Seq<char>, window_title: Seq<char>) -> Seq<char> {
    app_name_of_lower(lowercase_of(process_name), window_title)
}

/// The name shown for a program, by the lower case of its own.
pub fn app_name_lower(p: &str, window_title: &str) -> (r: String)
    ensures
        r@ == app_name_of_lower(p@, window_title@),
{
    let known = known_programs_table();
    let ghost table = pair_views(known@);
    let mut i: usize = 0;
    proof {
        assert(table.skip(0) =~= table);
    }
    while i < known.len()
        invariant
            i <= known.len(),
            table == pair_views(known@),
            table == known_programs(),
            first_known(p@, table.skip(i as int)) == first_known(p@, table),
        decreases known.len() - i,
    {
        proof {
            assert(table.skip(i as int)[0] == table[i as int]);
            assert(table.skip(i as int).drop_first() =~= table.skip(i + 1));
        }
        let (exe, name) = known[i];
        if ends_with(p, exe) {
            return name.to_string();
        }
        i = i + 1;
    }
    proof {
        assert(first_known(p@, known_programs()) is None);
    }
    let title = trim(window_title);
    if !is_empty(title.as_str()) && byte_len(title.as_str()) <= 40 {
        return title;
    }
    if !is_empty(p) {
        return trim_end_text(p, ".exe");
    }
    "未知".to_string()
}

/// The name shown for a program.
pub fn canonical_app_name(process_name: &str, window_title: &str) -> (r: String)
    ensures
        r@ == app_name_of(process_name@, window_title@),
{
    let p = process_name.to_lowercase();
    app_name_lower(p.as_str(), window_title)
}

// ---------------------------------------------------------------------------
// Samples and snapshots
// ---------------------------------------------------------------------------

/// One sample of the system: the seconds without input, the window in front, and
/// the moment.
#[derive(Debug, Clone)]
pub struct SystemSignals {
    pub idle_seconds: u32,
    pub process_name: String,
    pub window_title: String,
    pub timestamp_secs: Seconds,
}

/// The seconds without input, by the millisecond counters of now and of the last input.
/// The counters start anew after 49.7 days.
pub fn idle_seconds(tick: u32, last_input: u32) -> (r: u32)
    ensures
        r == (if tick >= last_input {
            tick - last_input
        } else {
            tick - last_input + 0x1_0000_0000
        }) / 1000,
{
    let elapsed: u64 = if tick >= last_input {
        (tick - last_input) as u64
    } else {
        tick as u64 + 0x1_0000_0000 - last_input as u64
    };
    (elapsed / 1000) as u32
}

/// Probabilities are counted in parts of this.
pub const CERTAIN: u32 = 1_000_000_000;

/// What is known of the user's activity at one moment.
#[derive(Debug, Clone)]
pub struct ActivitySnapshot {
    pub state: ActivityState,
    pub state_age_seconds: Seconds,
    pub propensity: Propensity,
    /// In parts of `CERTAIN`.
    pub skip_probability: u32,
    pub tone: String,
    /// The name shown for the program in front.
    pub active_window: String,
    pub idle_seconds: u32,
    pub switch_rate_5min: usize,
    pub seconds_since_user_msg: Option<Seconds>,
    pub hour: u32,
    pub weekday: u32,
    /// What the user seems to be doing, in words; empty where nobody has said.
    pub activity_guess: String,
    /// The signature of the activity that the words are about.
    pub guess_signature: String,
}

/// The contents of a snapshot.
pub struct SnapshotView {
    pub state: ActivityState,
    pub state_age_seconds: Seconds,
    pub propensity: Propensity,
    pub skip_probability: u32,
    pub tone: Seq<char>,
    pub active_window: Seq<char>,
    pub idle_seconds: u32,
    pub switch_rate_5min: int,
    pub seconds_since_user_msg: Option<Seconds>,
    pub hour: u32,
    pub weekday: u32,
    pub activity_guess: Seq<char>,
    pub guess_signature: Seq<char>,
}

impl View for ActivitySnapshot {
    type V = SnapshotView;

    open spec fn view(&self) -> SnapshotView {
        SnapshotView {
            state: self.state,
            state_age_seconds: self.state_age_seconds,
            propensity: self.propensity,
            skip_probability: self.skip_probability,
            tone: self.tone@,
            active_window: self.active_window@,
            idle_seconds: self.idle_seconds,
            switch_rate_5min: self.switch_rate_5min as int,
            seconds_since_user_msg: self.seconds_since_user_msg,
            hour: self.hour,
            weekday: self.weekday,
            activity_guess: self.activity_guess@,
            guess_signature: self.guess_signature@,
        }
    }
}

/// How open the user is in a state.
pub open spec fn propensity_of(state: ActivityState) -> Propensity {
    match state {
        ActivityState::Private => Propensity::Closed,
        ActivityState::FocusedWork | ActivityState::Away => Propensity::RestrictedScreenOnly,
        _ => Propensity::Open,
    }
}

/// How likely a remark is to be skipped in a state.
pub open spec fn skip_of(state: ActivityState) -> u32 {
    match state {
        ActivityState::Private => CERTAIN,
        ActivityState::Away => 500_000_000,
        _ => 0,
    }
}

/// The tone that fits a state.
pub open spec fn tone_of(state: ActivityState) -> Seq<char> {
    match state {
        ActivityState::Private => "勿扰"@,
        ActivityState::FocusedWork | ActivityState::Transitioning => "简洁"@,
        ActivityState::CasualBrowsing | ActivityState::Idle => "俏皮"@,
        ActivityState::Chatting => "温暖"@,
        ActivityState::Away => "安静"@,
    }
}

/// Openness, skip probability and tone of a state.
pub fn derive(state: ActivityState) -> (r: (Propensity, u32, &'static str))
    ensures
        r.0 == propensity_of(state),
        r.1 == skip_of(state),
        r.2@ == tone_of(state),
{
    match state {
        ActivityState::Private => (Propensity::Closed, CERTAIN, "勿扰"),
        ActivityState::FocusedWork => (Propensity::RestrictedScreenOnly, 0, "简洁"),
        ActivityState::CasualBrowsing => (Propensity::Open, 0, "俏皮"),
        ActivityState::Chatting => (Propensity::Open, 0, "温暖"),
        ActivityState::Transitioning => (Propensity::Open, 0, "简洁"),
        ActivityState::Idle => (Propensity::Open, 0, "俏皮"),
        ActivityState::Away => (Propensity::RestrictedScreenOnly, 500_000_000, "安静"),
    }
}

// ---------------------------------------------------------------------------
// The state machine
// ---------------------------------------------------------------------------

/// Idle seconds from which the user is away.
pub const AWAY_IDLE_SECONDS: u32 = 900;

/// Idle seconds below which the input is recent.
pub const RECENT_INPUT_SECONDS: u32 = 300;

/// Microseconds at work before it counts as focused.
pub const FOCUSED_WORK_DWELL: i64 = 90_000_000;

/// Microseconds at leisure before it counts as such.
pub const CASUAL_DWELL: i64 = 30_000_000;

/// Switches of category that make the user restless.
pub const SWITCH_THRESHOLD: usize = 5;

/// Microseconds over which switches are counted.
pub const SWITCH_LOOKBACK: i64 = 300_000_000;

/// The most switches that are remembered.
pub const WINDOW_BUFFER_MAXLEN: usize = 64;

/// Follows the windows in front and tells the state of the user.
pub struct ActivityStateMachine {
    current_state: ActivityState,
    state_started_at: Seconds,
    previous_state: Option<ActivityState>,
    current_category: Option<WindowCategory>,
    current_window_name: String,
    current_window_started_at: Seconds,
    window_history: Vec<(Seconds, WindowCategory)>,
    latest_idle: u32,
    last_user_msg_at: Option<Seconds>,
}

/// What the machine knows.
pub struct MachineView {
    pub state: ActivityState,
    pub state_started_at: Seconds,
    pub previous_state: Option<ActivityState>,
    pub category: Option<WindowCategory>,
    pub window: Seq<char>,
    pub window_started_at: Seconds,
    /// When a category was left, and which.
    pub history: Seq<(Seconds, WindowCategory)>,
    pub idle: u32,
    pub last_user_msg_at: Option<Seconds>,
}

/// Whether a switch lies within the time over which switches are counted.
pub open spec fn is_recent(ts: Seconds, entry: (Seconds, WindowCategory)) -> bool {
    ts.micros - entry.0.micros <= SWITCH_LOOKBACK
}

/// The number of recent switches.
pub open spec fn recent_switches(history: Seq<(Seconds, WindowCategory)>, ts: Seconds) -> nat
    decreases history.len(),
{
    if history.len() == 0 {
        0
    } else {
        recent_switches(history.drop_last(), ts) + if is_recent(ts, history.last()) {
            1nat
        } else {
            0nat
        }
    }
}

/// The newest entries, as many as are remembered.
pub open spec fn newest(
    history: Seq<(Seconds, WindowCategory)>,
) -> Seq<(Seconds, WindowCategory)> {
    if history.len() > WINDOW_BUFFER_MAXLEN {
        history.drop_first()
    } else {
        history
    }
}

impl MachineView {
    /// A machine that has seen nothing.
    pub open spec fn fresh(now: Seconds) -> MachineView {
        MachineView {
            state: ActivityState::Idle,
            state_started_at: now,
            previous_state: None,
            category: None,
            window: Seq::empty(),
            window_started_at: (Seconds { micros: 0 }),
            history: Seq::empty(),
            idle: 0,
            last_user_msg_at: None,
        }
    }

    /// The machine after a window of `category` named `name` was seen at `ts`.
    /// The companion's own window changes nothing but the idle time. Another
    /// category starts the dwelling time anew and remembers the one that was
    /// left; the same category only renames the window.
    pub open spec fn observed(
        self,
        idle: u32,
        ts: Seconds,
        category: WindowCategory,
        name: Seq<char>,
    ) -> MachineView {
        if category == WindowCategory::OwnApp {
            MachineView { idle, ..self }
        } else if self.category == Some(category) {
            MachineView {
                idle,
                window: if name.len() > 0 {
                    name
                } else {
                    self.window
                },
                ..self
            }
        } else {
            MachineView {
                idle,
                history: match self.category {
                    Some(left) => newest(self.history.push((ts, left))),
                    None => self.history,
                },
                category: Some(category),
                window: name,
                window_started_at: ts,
                ..self
            }
        }
    }

    /// The machine after a message of the user at `now`.
    pub open spec fn heard(self, now: Seconds) -> MachineView {
        MachineView { last_user_msg_at: Some(now), ..self }
    }

    /// The state by the rules, the first that applies: away, private, focused,
    /// at leisure, chatting, restless, idle.
    pub open spec fn judged(self, ts: Seconds) -> ActivityState {
        let dwell = ts.micros - self.window_started_at.micros;
        if self.idle >= AWAY_IDLE_SECONDS {
            ActivityState::Away
        } else if self.category == Some(WindowCategory::Private) {
            ActivityState::Private
        } else if self.category == Some(WindowCategory::Work) && dwell >= FOCUSED_WORK_DWELL
            && self.idle < RECENT_INPUT_SECONDS {
            ActivityState::FocusedWork
        } else if self.category == Some(WindowCategory::Entertainment) && dwell >= CASUAL_DWELL {
            ActivityState::CasualBrowsing
        } else if self.category == Some(WindowCategory::Communication) {
            ActivityState::Chatting
        } else if recent_switches(self.history, ts) >= SWITCH_THRESHOLD {
            ActivityState::Transitioning
        } else {
            ActivityState::Idle
        }
    }

    /// The machine after the state was judged at `ts`.
    pub open spec fn moved(self, ts: Seconds) -> MachineView {
        let state = self.judged(ts);
        if state == self.state {
            self
        } else {
            MachineView { state, state_started_at: ts, previous_state: Some(self.state), ..self }
        }
    }

    /// The snapshot at `ts`, at the local hour and day of the week.
    pub open spec fn snapshot(self, ts: Seconds, hour: u32, weekday: u32) -> SnapshotView {
        let m = self.moved(ts);
        SnapshotView {
            state: m.state,
            state_age_seconds: (Seconds {
                micros: crate::clock::clamp_i64(ts.micros - m.state_started_at.micros),
            }),
            propensity: propensity_of(m.state),
            skip_probability: skip_of(m.state),
            tone: tone_of(m.state),
            active_window: m.window,
            idle_seconds: m.idle,
            switch_rate_5min: recent_switches(m.history, ts) as int,
            seconds_since_user_msg: match m.last_user_msg_at {
                Some(t) => Some(
                    (Seconds { micros: crate::clock::clamp_i64(ts.micros - t.micros) }),
                ),
                None => None,
            },
            hour,
            weekday,
            activity_guess: Seq::empty(),
            guess_signature: Seq::empty(),
        }
    }

    /// The signature of the activity: the state and the category.
    pub open spec fn signature(self) -> Seq<char> {
        self.state.name_text() + "|"@ + match self.category {
            Some(c) => c.name_text(),
            None => "None"@,
        }
    }
}

impl View for ActivityStateMachine {
    type V = MachineView;

    closed spec fn view(&self) -> MachineView {
        MachineView {
            state: self.current_state,
            state_started_at: self.state_started_at,
            previous_state: self.previous_state,
            category: self.current_category,
            window: self.current_window_name@,
            window_started_at: self.current_window_started_at,
            history: self.window_history@,
            idle: self.latest_idle,
            last_user_msg_at: self.last_user_msg_at,
        }
    }
}

impl ActivityStateMachine {
    /// A machine that starts now.
    pub fn new() -> (r: ActivityStateMachine)
        ensures
            exists|now: Seconds| r@ == MachineView::fresh(now),
    {
        ActivityStateMachine::new_at(local_now().secs())
    }

    /// A machine that starts at `now`.
    pub fn new_at(now: Seconds) -> (r: ActivityStateMachine)
        ensures
            r@ == MachineView::fresh(now),
    {
        let r = ActivityStateMachine {
            current_state: ActivityState::Idle,
            state_started_at: now,
            previous_state: None,
            current_category: None,
            current_window_name: String::new(),
            current_window_started_at: Seconds { micros: 0 },
            window_history: Vec::new(),
            latest_idle: 0,
            last_user_msg_at: None,
        };
        proof {
            assert(r.current_window_name@ =~= Seq::<char>::empty());
            assert(r.window_history@ =~= Seq::empty());
        }
        r
    }

    /// Takes in a sample.
    pub fn update_signals(&mut self, sig: &SystemSignals)
        ensures
            final(self)@ == old(self)@.observed(
                sig.idle_seconds,
                sig.timestamp_secs,
                category_of(sig.process_name@, sig.window_title@),
                app_name_of(sig.process_name@, sig.window_title@),
            ),
    {
        let category = classify_window(sig.process_name.as_str(), sig.window_title.as_str());
        let name = canonical_app_name(sig.process_name.as_str(), sig.window_title.as_str());
        self.observe(sig.idle_seconds, sig.timestamp_secs, category, name);
    }

    /// Takes in a window whose category and name are known.
    pub fn observe(&mut self, idle: u32, ts: Seconds, category: WindowCategory, app_name: String)
        ensures
            final(self)@ == old(self)@.observed(idle, ts, category, app_name@),
    {
        self.latest_idle = idle;
        if category == WindowCategory::OwnApp {
            return;
        }
        let same: bool = match self.current_category {
            Some(c) => c == category,
            None => false,
        };
        if !same {
            if let Some(prev) = self.current_category {
                self.window_history.push((ts, prev));
                if self.window_history.len() > WINDOW_BUFFER_MAXLEN {
                    let ghost full = self.window_history@;
                    self.window_history.remove(0);
                    proof {
                        assert(self.window_history@ =~= full.drop_first());
                    }
                }
            }
            self.current_category = Some(category);
            self.current_window_name = app_name;
            self.current_window_started_at = ts;
        } else if !is_empty(app_name.as_str()) {
            self.current_window_name = app_name;
        }
    }

    /// Takes note of a message of the user, now.
    pub fn on_user_message(&mut self)
        ensures
            exists|now: Seconds|
                final(self)@ == #[trigger] old(self)@.heard(now),
    {
        self.on_user_message_at(local_now().secs());
    }

    /// Takes note of a message of the user at `now`.
    pub fn on_user_message_at(&mut self, now: Seconds)
        ensures
            final(self)@ == old(self)@.heard(now),
    {
        self.last_user_msg_at = Some(now);
    }

    fn count_recent(&self, ts: Seconds) -> (n: usize)
        ensures
            n == recent_switches(self@.history, ts),
    {
        let mut n: usize = 0;
        let mut i: usize = 0;
        while i < self.window_history.len()
            invariant
                i <= self.window_history.len(),
                n <= i,
                n == recent_switches(self.window_history@.take(i as int), ts),
            decreases self.window_history.len() - i,
        {
            proof {
                let part = self.window_history@.take(i + 1);
                assert(part.drop_last() =~= self.window_history@.take(i as int));
                assert(part.last() == self.window_history@[i as int]);
            }
            if ts.micros as i128 - self.window_history[i].0.micros as i128
                <= SWITCH_LOOKBACK as i128 {
                n = n + 1;
            }
            i = i + 1;
        }
        proof {
            assert(self.window_history@.take(i as int) =~= self.window_history@);
        }
        n
    }

    /// The state by the rules.
    pub fn classify(&self, ts: Seconds) -> (r: ActivityState)
        ensures
            r == self@.judged(ts),
    {
        if self.latest_idle >= AWAY_IDLE_SECONDS {
            return ActivityState::Away;
        }
        let dwell: i128 = ts.micros as i128 - self.current_window_started_at.micros as i128;
        match self.current_category {
            Some(WindowCategory::Private) => {
                return ActivityState::Private;
            },
            Some(WindowCategory::Work) => {
                if dwell >= FOCUSED_WORK_DWELL as i128 && self.latest_idle < RECENT_INPUT_SECONDS {
                    return ActivityState::FocusedWork;
                }
            },
            Some(WindowCategory::Entertainment) => {
                if dwell >= CASUAL_DWELL as i128 {
                    return ActivityState::CasualBrowsing;
                }
            },
            Some(WindowCategory::Communication) => {
                return ActivityState::Chatting;
            },
            _ => {},
        }
        if self.count_recent(ts) >= SWITCH_THRESHOLD {
            return ActivityState::Transitioning;
        }
        ActivityState::Idle
    }

    /// Judges the state now and gives the snapshot.
    pub fn get_snapshot(&mut self) -> (r: ActivitySnapshot)
        ensures
            exists|now: Seconds, hour: u32, weekday: u32|
                r@ == old(self)@.snapshot(now, hour, weekday) && final(self)@ == old(self)@.moved(
                    now,
                ),
    {
        let now = local_now();
        self.snapshot_at(now.secs(), now.wall.second / 3600, now.weekday)
    }

    /// Judges the state at `ts` and gives the snapshot, with the present hour and
    /// day of the week.
    pub fn get_snapshot_at(&mut self, ts: Seconds) -> (r: ActivitySnapshot)
        ensures
            r@ == old(self)@.snapshot(ts, r.hour, r.weekday),
            final(self)@ == old(self)@.moved(ts),
    {
        let now = local_now();
        self.snapshot_at(ts, now.wall.second / 3600, now.weekday)
    }

    /// Judges the state at `ts` and gives the snapshot.
    pub fn snapshot_at(&mut self, ts: Seconds, hour: u32, weekday: u32) -> (r: ActivitySnapshot)
        ensures
            r@ == old(self)@.snapshot(ts, hour, weekday),
            final(self)@ == old(self)@.moved(ts),
    {
        let state = self.classify(ts);
        if state != self.current_state {
            self.previous_state = Some(self.current_state);
            self.current_state = state;
            self.state_started_at = ts;
        }
        let (propensity, skip_probability, tone) = derive(state);
        let r = ActivitySnapshot {
            state: self.current_state,
            state_age_seconds: ts.since(self.state_started_at),
            propensity,
            skip_probability,
            tone: tone.to_string(),
            active_window: self.current_window_name.as_str().to_string(),
            idle_seconds: self.latest_idle,
            switch_rate_5min: self.count_recent(ts),
            seconds_since_user_msg: match self.last_user_msg_at {
                Some(t) => Some(ts.since(t)),
                None => None,
            },
            hour,
            weekday,
            activity_guess: String::new(),
            guess_signature: String::new(),
        };
        proof {
            assert(r.activity_guess@ =~= Seq::<char>::empty());
            assert(r.guess_signature@ =~= Seq::<char>::empty());
        }
        r
    }

    /// The signature of the activity: the state and the category.
    pub fn guess_signature(&self) -> (r: String)
        ensures
            r@ == self@.signature(),
    {
        let mut out = self.current_state.name().to_string();
        out.append("|");
        match self.current_category {
            Some(c) => out.append(c.name()),
            None => out.append("None"),
        }
        out
    }
}

// ---------------------------------------------------------------------------
// Laws of the machine
// ---------------------------------------------------------------------------

/// An absent user is away whatever is in front.
pub proof fn law_away_dominates(m: MachineView, ts: Seconds)
    requires
        m.idle >= AWAY_IDLE_SECONDS,
    ensures
        m.moved(ts).state == ActivityState::Away,
{
}

/// A sensitive window in front of a present user is private, whatever came
/// before; then nothing may be said, and every remark is skipped.
pub proof fn law_private_wins(m: MachineView, ts: Seconds, hour: u32, weekday: u32)
    requires
        m.idle < AWAY_IDLE_SECONDS,
        m.category == Some(WindowCategory::Private),
    ensures
        m.snapshot(ts, hour, weekday).state == ActivityState::Private,
        m.snapshot(ts, hour, weekday).propensity == Propensity::Closed,
        m.snapshot(ts, hour, weekday).skip_probability == CERTAIN,
{
}

/// Nobody but a user in private is closed to remarks.
pub proof fn law_closed_only_in_private(m: MachineView, ts: Seconds, hour: u32, weekday: u32)
    ensures
        m.snapshot(ts, hour, weekday).propensity == Propensity::Closed <==> m.snapshot(
            ts,
            hour,
            weekday,
        ).state == ActivityState::Private,
{
}

/// The companion's own window freezes what is known of the windows.
pub proof fn law_own_window_freezes(m: MachineView, idle: u32, ts: Seconds, name: Seq<char>)
    ensures
        m.observed(idle, ts, WindowCategory::OwnApp, name).category == m.category,
        m.observed(idle, ts, WindowCategory::OwnApp, name).window == m.window,
        m.observed(idle, ts, WindowCategory::OwnApp, name).window_started_at
            == m.window_started_at,
        m.observed(idle, ts, WindowCategory::OwnApp, name).history == m.history,
{
}

/// Windows of one category share one dwelling time.
pub proof fn law_same_category_keeps_dwelling(
    m: MachineView,
    idle: u32,
    ts: Seconds,
    category: WindowCategory,
    name: Seq<char>,
)
    requires
        m.category == Some(category),
    ensures
        m.observed(idle, ts, category, name).window_started_at == m.window_started_at,
        m.observed(idle, ts, category, name).history == m.history,
{
}

/// Work becomes focused only after the dwelling time and with recent input.
pub proof fn law_focus_needs_dwelling_and_input(m: MachineView, ts: Seconds)
    ensures
        m.judged(ts) == ActivityState::FocusedWork <==> m.category == Some(WindowCategory::Work)
            && ts.micros - m.window_started_at.micros >= FOCUSED_WORK_DWELL && m.idle
            < RECENT_INPUT_SECONDS,
{
}

/// A machine never remembers more switches than it may.
pub proof fn law_history_bounded(
    m: MachineView,
    idle: u32,
    ts: Seconds,
    category: WindowCategory,
    name: Seq<char>,
)
    requires
        m.history.len() <= WINDOW_BUFFER_MAXLEN,
    ensures
        m.observed(idle, ts, category, name).history.len() <= WINDOW_BUFFER_MAXLEN,
        m.moved(ts).history.len() <= WINDOW_BUFFER_MAXLEN,
        MachineView::fresh(ts).history.len() <= WINDOW_BUFFER_MAXLEN,
{
}

/// Judging twice at one moment is judging once.
pub proof fn law_moved_idempotent(m: MachineView, ts: Seconds)
    ensures
        m.moved(ts).moved(ts) == m.moved(ts),
{
}

// ---------------------------------------------------------------------------
// The activity in words
// ---------------------------------------------------------------------------

/// The part of the day.
pub open spec fn period_of(hour: u32) -> Seq<char> {
    if hour <= 5 {
        "凌晨"@
    } else if hour <= 11 {
        "上午"@
    } else if hour <= 13 {
        "中午"@
    } else if hour <= 17 {
        "下午"@
    } else if hour <= 23 {
        "晚上"@
    } else {
        ""@
    }
}

/// The part of the day.
pub fn period(hour: u32) -> (r: &'static str)
    ensures
        r@ == period_of(hour),
{
    if hour <= 5 {
        "凌晨"
    } else if hour <= 11 {
        "上午"
    } else if hour <= 13 {
        "中午"
    } else if hour <= 17 {
        "下午"
    } else if hour <= 23 {
        "晚上"
    } else {
        ""
    }
}

/// How long ago the user's last message was, in words.
pub open spec fn since_message(span: Option<Seconds>) -> Seq<char> {
    match span {
        None => Seq::empty(),
        Some(s) => if s.micros < 60_000_000 {
            " · 用户 "@ + decimal(quotient(s.micros as int, 1_000_000)) + " 秒前"@
        } else if s.micros < 3_600_000_000 {
            " · 用户 "@ + decimal(quotient(s.micros as int, 60_000_000)) + " 分钟前"@
        } else {
            " · 用户 "@ + decimal(quotient(s.micros as int, 3_600_000_000)) + " 小时前"@
        },
    }
}

/// How long the user has been without input, in words.
pub open spec fn since_input(idle_seconds: u32) -> Seq<char> {
    if idle_seconds >= 60 {
        " · 空闲 "@ + decimal((idle_seconds / 60) as int) + " 分钟"@
    } else {
        Seq::empty()
    }
}

/// The line with what the user seems to be doing.
pub open spec fn guess_line(guess: Seq<char>) -> Seq<char> {
    if guess.len() > 0 {
        "\n【叙述】"@ + guess
    } else {
        Seq::empty()
    }
}

/// The activity as it is put into a prompt.
pub open spec fn activity_section(s: SnapshotView) -> Seq<char> {
    "【当前活动】\n"@ + s.state.label_text() + "（"@ + s.active_window + "）· "@
        + s.propensity.label_text() + "\n"@ + period_of(s.hour) + " "@ + decimal(s.hour as int)
        + "点"@ + since_message(s.seconds_since_user_msg) + since_input(s.idle_seconds)
        + "\n状态持续 "@ + decimal(quotient(s.state_age_seconds.micros as int, 1_000_000))
        + " 秒 · 5分钟切换 "@ + decimal(s.switch_rate_5min) + " 次窗口"@ + guess_line(
        s.activity_guess,
    )
}

/// How long ago the user's last message was, in words.
fn since_message_text(span: Option<Seconds>) -> (r: String)
    ensures
        r@ == since_message(span),
{
    match span {
        None => {
            let r = String::new();
            proof {
                assert(r@ =~= Seq::<char>::empty());
            }
            r
        },
        Some(s) => {
            let mut out = " · 用户 ".to_string();
            if s.micros < 60_000_000 {
                out.append(decimal_i64(s.whole(1)).as_str());
                out.append(" 秒前");
            } else if s.micros < 3_600_000_000 {
                out.append(decimal_i64(s.whole(60)).as_str());
                out.append(" 分钟前");
            } else {
                out.append(decimal_i64(s.whole(3600)).as_str());
                out.append(" 小时前");
            }
            out
        },
    }
}

/// How long the user has been without input, in words.
fn since_input_text(idle_seconds: u32) -> (r: String)
    ensures
        r@ == since_input(idle_seconds),
{
    if idle_seconds >= 60 {
        let mut out = " · 空闲 ".to_string();
        out.append(decimal_u64((idle_seconds / 60) as u64).as_str());
        out.append(" 分钟");
        out
    } else {
        let r = String::new();
        proof {
            assert(r@ =~= Seq::<char>::empty());
        }
        r
    }
}

/// The activity as it is put into a prompt.
pub fn format_activity_state_section(snap: &ActivitySnapshot) -> (r: String)
    ensures
        r@ == activity_section(snap@),
{
    let mut out = "【当前活动】\n".to_string();
    out.append(snap.state.label());
    out.append("（");
    out.append(snap.active_window.as_str());
    out.append("）· ");
    out.append(snap.propensity.label());
    out.append("\n");
    out.append(period(snap.hour));
    out.append(" ");
    out.append(decimal_u64(snap.hour as u64).as_str());
    out.append("点");
    out.append(since_message_text(snap.seconds_since_user_msg).as_str());
    out.append(since_input_text(snap.idle_seconds).as_str());
    out.append("\n状态持续 ");
    out.append(decimal_i64(snap.state_age_seconds.whole(1)).as_str());
    out.append(" 秒 · 5分钟切换 ");
    out.append(decimal_u64(snap.switch_rate_5min as u64).as_str());
    out.append(" 次窗口");
    let ghost before = out@;
    if !is_empty(snap.activity_guess.as_str()) {
        let mut line = "\n【叙述】".to_string();
        line.append(snap.activity_guess.as_str());
        out.append(line.as_str());
    } else {
        proof {
            assert(before + Seq::<char>::empty() =~= before);
        }
    }
    out
}

} // verus!
