//! What the sense of the user's activity promises: what each window is, and what the user is
//! taken to be doing.

use crate::activity::{
    activity_section, app_name_of_lower, category_of_lower, chat_programs, first_known,
    known_programs, leisure_programs, leisure_titles, private_programs, private_titles,
    recent_switches, work_programs, ActivityState, MachineView, Propensity, SnapshotView,
    WindowCategory,
};
use crate::clock::Seconds;
use crate::text::{byte_size, cut_back, decimal, has_one, has_suffix, has_text, is_one, trimmed};
use crate::text_laws::{law_text_stands_in, lemma_stands_in_sum, stands_in};
use vstd::prelude::*;

verus! {

// ---------------------------------------------------------------------------
// Windows
// ---------------------------------------------------------------------------

/// The programs for work.
pub open spec fn is_for_work(p: Seq<char>) -> bool {
    ||| p == "code.exe"@
    ||| p == "devenv.exe"@
    ||| p == "idea64.exe"@
    ||| p == "pycharm64.exe"@
    ||| p == "goland64.exe"@
    ||| p == "rider64.exe"@
    ||| p == "clion64.exe"@
    ||| p == "webstorm64.exe"@
    ||| p == "datagrip64.exe"@
    ||| p == "wps.exe"@
    ||| p == "winword.exe"@
    ||| p == "excel.exe"@
    ||| p == "powerpnt.exe"@
    ||| p == "onenote.exe"@
    ||| p == "outlook.exe"@
    ||| p == "obsidian.exe"@
    ||| p == "notion.exe"@
    ||| p == "typora.exe"@
    ||| p == "marktext.exe"@
    ||| p == "figma.exe"@
    ||| p == "axure.exe"@
    ||| p == "xmind.exe"@
    ||| p == "drawio.exe"@
    ||| p == "notepad.exe"@
    ||| p == "notepad++.exe"@
    ||| p == "windows_terminal.exe"@
    ||| p == "windowsterminal.exe"@
    ||| p == "cmd.exe"@
    ||| p == "powershell.exe"@
    ||| p == "pwsh.exe"@
    ||| p == "wezterm.exe"@
    ||| p == "alacritty.exe"@
    ||| p == "konsole.exe"@
    ||| p == "vsdbg.exe"@
    ||| p == "python.exe"@
    ||| p == "node.exe"@
    ||| p == "java.exe"@
}

/// The programs for chats and meetings.
pub open spec fn is_for_chats(p: Seq<char>) -> bool {
    ||| p == "wechat.exe"@
    ||| p == "weixin.exe"@
    ||| p == "qq.exe"@
    ||| p == "tim.exe"@
    ||| p == "dingtalk.exe"@
    ||| p == "feishu.exe"@
    ||| p == "lark.exe"@
    ||| p == "telegram.exe"@
    ||| p == "slack.exe"@
    ||| p == "teams.exe"@
    ||| p == "discord.exe"@
    ||| p == "zoom.exe"@
    ||| p == "microsoftteams.exe"@
    ||| p == "kook.exe"@
    ||| p == "vxwork.exe"@
}

/// The programs for leisure.
pub open spec fn is_for_leisure(p: Seq<char>) -> bool {
    ||| p == "msedge.exe"@
    ||| p == "chrome.exe"@
    ||| p == "firefox.exe"@
    ||| p == "360se.exe"@
    ||| p == "qqbrowser.exe"@
    ||| p == "potplayer.exe"@
    ||| p == "vlc.exe"@
    ||| p == "wmplayer.exe"@
    ||| p == "cloudmusic.exe"@
    ||| p == "qqmusic.exe"@
    ||| p == "bilibili.exe"@
    ||| p == "steam.exe"@
    ||| p == "wegame.exe"@
    ||| p == "epicgameslauncher.exe"@
}

/// Names of sensitive programs, known by a part.
pub open spec fn is_sensitive(t: Seq<char>) -> bool {
    ||| stands_in(t, "keepass"@)
    ||| stands_in(t, "bitwarden"@)
    ||| stands_in(t, "1password"@)
    ||| stands_in(t, "enpass"@)
    ||| stands_in(t, "ibank"@)
}

/// Titles that tell of leisure.
pub open spec fn tells_of_leisure(t: Seq<char>) -> bool {
    ||| stands_in(t, "bilibili"@)
    ||| stands_in(t, "youtube"@)
    ||| stands_in(t, "douyin"@)
    ||| stands_in(t, "微博"@)
    ||| stands_in(t, "weibo"@)
    ||| stands_in(t, "抖音"@)
    ||| stands_in(t, "爱奇艺"@)
    ||| stands_in(t, "iqiyi"@)
    ||| stands_in(t, "优酷"@)
    ||| stands_in(t, "youku"@)
    ||| stands_in(t, "腾讯视频"@)
    ||| stands_in(t, "西瓜视频"@)
}

/// Titles that tell of passwords and payment.
pub open spec fn tells_of_secrets(t: Seq<char>) -> bool {
    ||| stands_in(t, "keepass"@)
    ||| stands_in(t, "bitwarden"@)
    ||| stands_in(t, "密码"@)
    ||| stands_in(t, "网银"@)
    ||| stands_in(t, "银行"@)
    ||| stands_in(t, "bank"@)
    ||| stands_in(t, "支付"@)
}

proof fn lemma_sensitive(t: Seq<char>)
    ensures
        has_one(t, private_programs()) <==> is_sensitive(t),
{
    let table = private_programs();
    law_text_stands_in(t, "keepass"@, Seq::empty(), Seq::empty());
    law_text_stands_in(t, "bitwarden"@, Seq::empty(), Seq::empty());
    law_text_stands_in(t, "1password"@, Seq::empty(), Seq::empty());
    law_text_stands_in(t, "enpass"@, Seq::empty(), Seq::empty());
    law_text_stands_in(t, "ibank"@, Seq::empty(), Seq::empty());
    if is_sensitive(t) {
        assert(table[0] == "keepass"@);
        assert(table[1] == "bitwarden"@);
        assert(table[2] == "1password"@);
        assert(table[3] == "enpass"@);
        assert(table[4] == "ibank"@);
    }
    if has_one(t, table) {
        let k = choose|k: int| 0 <= k < table.len() && has_text(t, #[trigger] table[k]);
        assert(table.len() == 5);
    }
}

proof fn lemma_leisure_title(t: Seq<char>)
    ensures
        has_one(t, leisure_titles()) <==> tells_of_leisure(t),
{
    let table = leisure_titles();
    law_text_stands_in(t, "bilibili"@, Seq::empty(), Seq::empty());
    law_text_stands_in(t, "youtube"@, Seq::empty(), Seq::empty());
    law_text_stands_in(t, "douyin"@, Seq::empty(), Seq::empty());
    law_text_stands_in(t, "微博"@, Seq::empty(), Seq::empty());
    law_text_stands_in(t, "weibo"@, Seq::empty(), Seq::empty());
    law_text_stands_in(t, "抖音"@, Seq::empty(), Seq::empty());
    law_text_stands_in(t, "爱奇艺"@, Seq::empty(), Seq::empty());
    law_text_stands_in(t, "iqiyi"@, Seq::empty(), Seq::empty());
    law_text_stands_in(t, "优酷"@, Seq::empty(), Seq::empty());
    law_text_stands_in(t, "youku"@, Seq::empty(), Seq::empty());
    law_text_stands_in(t, "腾讯视频"@, Seq::empty(), Seq::empty());
    law_text_stands_in(t, "西瓜视频"@, Seq::empty(), Seq::empty());
    if tells_of_leisure(t) {
        assert(table[0] == "bilibili"@);
        assert(table[1] == "youtube"@);
        assert(table[2] == "douyin"@);
        assert(table[3] == "微博"@);
        assert(table[4] == "weibo"@);
        assert(table[5] == "抖音"@);
        assert(table[6] == "爱奇艺"@);
        assert(table[7] == "iqiyi"@);
        assert(table[8] == "优酷"@);
        assert(table[9] == "youku"@);
        assert(table[10] == "腾讯视频"@);
        assert(table[11] == "西瓜视频"@);
    }
    if has_one(t, table) {
        let k = choose|k: int| 0 <= k < table.len() && has_text(t, #[trigger] table[k]);
        assert(table.len() == 12);
    }
}

proof fn lemma_secret_title(t: Seq<char>)
    ensures
        has_one(t, private_titles()) <==> tells_of_secrets(t),
{
    let table = private_titles();
    law_text_stands_in(t, "keepass"@, Seq::empty(), Seq::empty());
    law_text_stands_in(t, "bitwarden"@, Seq::empty(), Seq::empty());
    law_text_stands_in(t, "密码"@, Seq::empty(), Seq::empty());
    law_text_stands_in(t, "网银"@, Seq::empty(), Seq::empty());
    law_text_stands_in(t, "银行"@, Seq::empty(), Seq::empty());
    law_text_stands_in(t, "bank"@, Seq::empty(), Seq::empty());
    law_text_stands_in(t, "支付"@, Seq::empty(), Seq::empty());
    if tells_of_secrets(t) {
        assert(table[0] == "keepass"@);
        assert(table[1] == "bitwarden"@);
        assert(table[2] == "密码"@);
        assert(table[3] == "网银"@);
        assert(table[4] == "银行"@);
        assert(table[5] == "bank"@);
        assert(table[6] == "支付"@);
    }
    if has_one(t, table) {
        let k = choose|k: int| 0 <= k < table.len() && has_text(t, #[trigger] table[k]);
        assert(table.len() == 7);
    }
}

proof fn lemma_programs(p: Seq<char>)
    ensures
        is_one(p, work_programs()) <==> is_for_work(p),
        is_one(p, chat_programs()) <==> is_for_chats(p),
        is_one(p, leisure_programs()) <==> is_for_leisure(p),
{
    if is_for_work(p) {
        let t = work_programs();
        assert(t[0] == "code.exe"@);
        assert(t[1] == "devenv.exe"@);
        assert(t[2] == "idea64.exe"@);
        assert(t[3] == "pycharm64.exe"@);
        assert(t[4] == "goland64.exe"@);
        assert(t[5] == "rider64.exe"@);
        assert(t[6] == "clion64.exe"@);
        assert(t[7] == "webstorm64.exe"@);
        assert(t[8] == "datagrip64.exe"@);
        assert(t[9] == "wps.exe"@);
        assert(t[10] == "winword.exe"@);
        assert(t[11] == "excel.exe"@);
        assert(t[12] == "powerpnt.exe"@);
        assert(t[13] == "onenote.exe"@);
        assert(t[14] == "outlook.exe"@);
        assert(t[15] == "obsidian.exe"@);
        assert(t[16] == "notion.exe"@);
        assert(t[17] == "typora.exe"@);
        assert(t[18] == "marktext.exe"@);
        assert(t[19] == "figma.exe"@);
        assert(t[20] == "axure.exe"@);
        assert(t[21] == "xmind.exe"@);
        assert(t[22] == "drawio.exe"@);
        assert(t[23] == "notepad.exe"@);
        assert(t[24] == "notepad++.exe"@);
        assert(t[25] == "windows_terminal.exe"@);
        assert(t[26] == "windowsterminal.exe"@);
        assert(t[27] == "cmd.exe"@);
        assert(t[28] == "powershell.exe"@);
        assert(t[29] == "pwsh.exe"@);
        assert(t[30] == "wezterm.exe"@);
        assert(t[31] == "alacritty.exe"@);
        assert(t[32] == "konsole.exe"@);
        assert(t[33] == "vsdbg.exe"@);
        assert(t[34] == "python.exe"@);
        assert(t[35] == "node.exe"@);
        assert(t[36] == "java.exe"@);
    }
    if is_one(p, work_programs()) {
        let k = choose|k: int| 0 <= k < work_programs().len() && p == #[trigger] work_programs()[k];
        assert(work_programs().len() == 37);
    }
    if is_for_chats(p) {
        let t = chat_programs();
        assert(t[0] == "wechat.exe"@);
        assert(t[1] == "weixin.exe"@);
        assert(t[2] == "qq.exe"@);
        assert(t[3] == "tim.exe"@);
        assert(t[4] == "dingtalk.exe"@);
        assert(t[5] == "feishu.exe"@);
        assert(t[6] == "lark.exe"@);
        assert(t[7] == "telegram.exe"@);
        assert(t[8] == "slack.exe"@);
        assert(t[9] == "teams.exe"@);
        assert(t[10] == "discord.exe"@);
        assert(t[11] == "zoom.exe"@);
        assert(t[12] == "microsoftteams.exe"@);
        assert(t[13] == "kook.exe"@);
        assert(t[14] == "vxwork.exe"@);
    }
    if is_one(p, chat_programs()) {
        let k = choose|k: int| 0 <= k < chat_programs().len() && p == #[trigger] chat_programs()[k];
        assert(chat_programs().len() == 15);
    }
    if is_for_leisure(p) {
        let t = leisure_programs();
        assert(t[0] == "msedge.exe"@);
        assert(t[1] == "chrome.exe"@);
        assert(t[2] == "firefox.exe"@);
        assert(t[3] == "360se.exe"@);
        assert(t[4] == "qqbrowser.exe"@);
        assert(t[5] == "potplayer.exe"@);
        assert(t[6] == "vlc.exe"@);
        assert(t[7] == "wmplayer.exe"@);
        assert(t[8] == "cloudmusic.exe"@);
        assert(t[9] == "qqmusic.exe"@);
        assert(t[10] == "bilibili.exe"@);
        assert(t[11] == "steam.exe"@);
        assert(t[12] == "wegame.exe"@);
        assert(t[13] == "epicgameslauncher.exe"@);
    }
    if is_one(p, leisure_programs()) {
        let k = choose|k: int| 0 <= k < leisure_programs().len() && p == #[trigger] leisure_programs()[k];
        assert(leisure_programs().len() == 14);
    }
}

/// What a window is, by the lower case of its program's name and its title. The companion's
/// own window comes first, then sensitive programs, by a part of the name; then the programs
/// for work, for chats and for leisure, by the whole name; and only then the title, first for
/// leisure, then for secrets.
pub proof fn law_category(p: Seq<char>, t: Seq<char>)
    ensures
        ({
            let c = category_of_lower(p, t);
            let own = p == "dagent.exe"@ || p == "dagent"@;
            let known = own || is_sensitive(p) || is_for_work(p) || is_for_chats(p)
                || is_for_leisure(p);
            &&& own ==> c == WindowCategory::OwnApp
            &&& !own && is_sensitive(p) ==> c == WindowCategory::Private
            &&& !own && !is_sensitive(p) && is_for_work(p) ==> c == WindowCategory::Work
            &&& !own && !is_sensitive(p) && !is_for_work(p) && is_for_chats(p) ==> c
                == WindowCategory::Communication
            &&& !own && !is_sensitive(p) && !is_for_work(p) && !is_for_chats(p) && is_for_leisure(p)
                ==> c == WindowCategory::Entertainment
            &&& !known && tells_of_leisure(t) ==> c == WindowCategory::Entertainment
            &&& !known && !tells_of_leisure(t) && tells_of_secrets(t) ==> c
                == WindowCategory::Private
            &&& !known && !tells_of_leisure(t) && !tells_of_secrets(t) ==> c
                == WindowCategory::Unknown
        }),
{
    lemma_programs(p);
    lemma_sensitive(p);
    lemma_leisure_title(t);
    lemma_secret_title(t);
}

/// The name by which a program is known, by the end of its own name; the first that fits.
pub open spec fn known_name(p: Seq<char>) -> Option<Seq<char>> {
    if has_suffix(p, "code.exe"@) {
        Some("VS Code"@)
    } else if has_suffix(p, "devenv.exe"@) {
        Some("Visual Studio"@)
    } else if has_suffix(p, "idea64.exe"@) {
        Some("IntelliJ IDEA"@)
    } else if has_suffix(p, "pycharm64.exe"@) {
        Some("PyCharm"@)
    } else if has_suffix(p, "wps.exe"@) {
        Some("WPS"@)
    } else if has_suffix(p, "winword.exe"@) {
        Some("Word"@)
    } else if has_suffix(p, "excel.exe"@) {
        Some("Excel"@)
    } else if has_suffix(p, "powerpnt.exe"@) {
        Some("PowerPoint"@)
    } else if has_suffix(p, "obsidian.exe"@) {
        Some("Obsidian"@)
    } else if has_suffix(p, "notion.exe"@) {
        Some("Notion"@)
    } else if has_suffix(p, "figma.exe"@) {
        Some("Figma"@)
    } else if has_suffix(p, "msedge.exe"@) {
        Some("Edge"@)
    } else if has_suffix(p, "chrome.exe"@) {
        Some("Chrome"@)
    } else if has_suffix(p, "firefox.exe"@) {
        Some("Firefox"@)
    } else if has_suffix(p, "wechat.exe"@) {
        Some("微信"@)
    } else if has_suffix(p, "weixin.exe"@) {
        Some("微信"@)
    } else if has_suffix(p, "qq.exe"@) {
        Some("QQ"@)
    } else if has_suffix(p, "dingtalk.exe"@) {
        Some("钉钉"@)
    } else if has_suffix(p, "feishu.exe"@) {
        Some("飞书"@)
    } else if has_suffix(p, "lark.exe"@) {
        Some("飞书"@)
    } else if has_suffix(p, "telegram.exe"@) {
        Some("Telegram"@)
    } else if has_suffix(p, "discord.exe"@) {
        Some("Discord"@)
    } else if has_suffix(p, "potplayer.exe"@) {
        Some("PotPlayer"@)
    } else if has_suffix(p, "cloudmusic.exe"@) {
        Some("网易云音乐"@)
    } else if has_suffix(p, "qqmusic.exe"@) {
        Some("QQ音乐"@)
    } else if has_suffix(p, "bilibili.exe"@) {
        Some("哔哩哔哩"@)
    } else if has_suffix(p, "steam.exe"@) {
        Some("Steam"@)
    } else if has_suffix(p, "windows_terminal.exe"@) {
        Some("终端"@)
    } else if has_suffix(p, "windowsterminal.exe"@) {
        Some("终端"@)
    } else if has_suffix(p, "cmd.exe"@) {
        Some("命令行"@)
    } else if has_suffix(p, "powershell.exe"@) {
        Some("PowerShell"@)
    } else if has_suffix(p, "pwsh.exe"@) {
        Some("PowerShell"@)
    } else {
        None
    }
}

proof fn lemma_known_from(p: Seq<char>, i: int)
    requires
        0 <= i < known_programs().len(),
    ensures
        first_known(p, known_programs().skip(i)) == if has_suffix(p, known_programs()[i].0) {
            Some(known_programs()[i].1)
        } else {
            first_known(p, known_programs().skip(i + 1))
        },
{
    let rest = known_programs().skip(i);
    assert(rest[0] == known_programs()[i]);
    assert(rest.drop_first() =~= known_programs().skip(i + 1));
}

proof fn lemma_known(p: Seq<char>)
    ensures
        first_known(p, known_programs()) == known_name(p),
{
    let t = known_programs();
    assert(t.len() == 32);
    assert(t.skip(0) =~= t);
    assert(t.skip(32).len() == 0);
    lemma_known_from(p, 0);
    assert(t[0] == ("code.exe"@, "VS Code"@));
    lemma_known_from(p, 1);
    assert(t[1] == ("devenv.exe"@, "Visual Studio"@));
    lemma_known_from(p, 2);
    assert(t[2] == ("idea64.exe"@, "IntelliJ IDEA"@));
    lemma_known_from(p, 3);
    assert(t[3] == ("pycharm64.exe"@, "PyCharm"@));
    lemma_known_from(p, 4);
    assert(t[4] == ("wps.exe"@, "WPS"@));
    lemma_known_from(p, 5);
    assert(t[5] == ("winword.exe"@, "Word"@));
    lemma_known_from(p, 6);
    assert(t[6] == ("excel.exe"@, "Excel"@));
    lemma_known_from(p, 7);
    assert(t[7] == ("powerpnt.exe"@, "PowerPoint"@));
    lemma_known_from(p, 8);
    assert(t[8] == ("obsidian.exe"@, "Obsidian"@));
    lemma_known_from(p, 9);
    assert(t[9] == ("notion.exe"@, "Notion"@));
    lemma_known_from(p, 10);
    assert(t[10] == ("figma.exe"@, "Figma"@));
    lemma_known_from(p, 11);
    assert(t[11] == ("msedge.exe"@, "Edge"@));
    lemma_known_from(p, 12);
    assert(t[12] == ("chrome.exe"@, "Chrome"@));
    lemma_known_from(p, 13);
    assert(t[13] == ("firefox.exe"@, "Firefox"@));
    lemma_known_from(p, 14);
    assert(t[14] == ("wechat.exe"@, "微信"@));
    lemma_known_from(p, 15);
    assert(t[15] == ("weixin.exe"@, "微信"@));
    lemma_known_from(p, 16);
    assert(t[16] == ("qq.exe"@, "QQ"@));
    lemma_known_from(p, 17);
    assert(t[17] == ("dingtalk.exe"@, "钉钉"@));
    lemma_known_from(p, 18);
    assert(t[18] == ("feishu.exe"@, "飞书"@));
    lemma_known_from(p, 19);
    assert(t[19] == ("lark.exe"@, "飞书"@));
    lemma_known_from(p, 20);
    assert(t[20] == ("telegram.exe"@, "Telegram"@));
    lemma_known_from(p, 21);
    assert(t[21] == ("discord.exe"@, "Discord"@));
    lemma_known_from(p, 22);
    assert(t[22] == ("potplayer.exe"@, "PotPlayer"@));
    lemma_known_from(p, 23);
    assert(t[23] == ("cloudmusic.exe"@, "网易云音乐"@));
    lemma_known_from(p, 24);
    assert(t[24] == ("qqmusic.exe"@, "QQ音乐"@));
    lemma_known_from(p, 25);
    assert(t[25] == ("bilibili.exe"@, "哔哩哔哩"@));
    lemma_known_from(p, 26);
    assert(t[26] == ("steam.exe"@, "Steam"@));
    lemma_known_from(p, 27);
    assert(t[27] == ("windows_terminal.exe"@, "终端"@));
    lemma_known_from(p, 28);
    assert(t[28] == ("windowsterminal.exe"@, "终端"@));
    lemma_known_from(p, 29);
    assert(t[29] == ("cmd.exe"@, "命令行"@));
    lemma_known_from(p, 30);
    assert(t[30] == ("powershell.exe"@, "PowerShell"@));
    lemma_known_from(p, 31);
    assert(t[31] == ("pwsh.exe"@, "PowerShell"@));
}

/// The name that is shown for a program: the one by which it is known; or else the title,
/// without white space round it, if it takes forty bytes at most; or else its own name
/// without the ending; or else that it is not known.
pub proof fn law_app_name(p: Seq<char>, title: Seq<char>)
    ensures
        ({
            let r = app_name_of_lower(p, title);
            let t = trimmed(title);
            &&& known_name(p) matches Some(name) ==> r == name
            &&& known_name(p) is None && t.len() > 0 && byte_size(t) <= 40 ==> r == t
            &&& known_name(p) is None && (t.len() == 0 || byte_size(t) > 40) && p.len() > 0 ==> r
                == cut_back(p, ".exe"@)
            &&& known_name(p) is None && (t.len() == 0 || byte_size(t) > 40) && p.len() == 0 ==> r
                == "未知"@
        }),
{
    lemma_known(p);
}

// ---------------------------------------------------------------------------
// What the user is doing
// ---------------------------------------------------------------------------

/// The switches that count are those of the last five minutes.
pub proof fn law_switches(history: Seq<(Seconds, WindowCategory)>, ts: Seconds)
    ensures
        recent_switches(history, ts) == history.filter(
            |e: (Seconds, WindowCategory)| ts.micros - e.0.micros <= 300_000_000,
        ).len(),
    decreases history.len(),
{
    reveal(Seq::filter);
    if history.len() > 0 {
        law_switches(history.drop_last(), ts);
    }
}

/// What the user is taken to be doing. Without input for fifteen minutes: away. Then, with a
/// sensitive window in front: in private. Then at work, once such windows have been in front
/// for a minute and a half, with input in the last five minutes; at leisure, once such
/// windows have been in front for half a minute; in a chat at once. Then restless, with five
/// switches in the last five minutes; and idle otherwise.
pub proof fn law_state(m: MachineView, ts: Seconds)
    ensures
        ({
            let dwell = ts.micros - m.window_started_at.micros;
            let present = m.idle < 900;
            let working = m.category == Some(WindowCategory::Work) && dwell >= 90_000_000 && m.idle
                < 300;
            let resting = m.category == Some(WindowCategory::Entertainment) && dwell >= 30_000_000;
            let talking = m.category == Some(WindowCategory::Communication);
            let private = m.category == Some(WindowCategory::Private);
            let restless = m.history.filter(
                |e: (Seconds, WindowCategory)| ts.micros - e.0.micros <= 300_000_000,
            ).len() >= 5;
            let s = m.judged(ts);
            &&& s == ActivityState::Away <==> !present
            &&& s == ActivityState::Private <==> present && private
            &&& s == ActivityState::FocusedWork <==> present && working
            &&& s == ActivityState::CasualBrowsing <==> present && resting
            &&& s == ActivityState::Chatting <==> present && talking
            &&& s == ActivityState::Transitioning <==> present && !private && !working && !resting
                && !talking && restless
            &&& s == ActivityState::Idle <==> present && !private && !working && !resting
                && !talking && !restless
        }),
{
    law_switches(m.history, ts);
}

/// What a look at the windows changes. The time without input is always taken over. The
/// companion's own window changes nothing else; a window of the same category only its name,
/// if it has one; a window of another category starts a new time in front and notes which
/// category was left, and when, and of these notes the last sixty-four are kept.
pub proof fn law_look(
    m: MachineView,
    idle: u32,
    ts: Seconds,
    category: WindowCategory,
    name: Seq<char>,
)
    ensures
        ({
            let r = m.observed(idle, ts, category, name);
            &&& r.idle == idle
            &&& r.state == m.state && r.state_started_at == m.state_started_at && r.previous_state
                == m.previous_state && r.last_user_msg_at == m.last_user_msg_at
            &&& category == WindowCategory::OwnApp ==> r == (MachineView { idle, ..m })
            &&& category != WindowCategory::OwnApp ==> r.category == Some(category)
            &&& category != WindowCategory::OwnApp && m.category == Some(category) ==> {
                &&& r.window_started_at == m.window_started_at
                &&& r.history == m.history
                &&& name.len() > 0 ==> r.window == name
                &&& name.len() == 0 ==> r.window == m.window
            }
            &&& category != WindowCategory::OwnApp && m.category != Some(category) ==> {
                &&& r.window_started_at == ts
                &&& r.window == name
                &&& m.category is None ==> r.history == m.history
                &&& m.category is Some && m.history.len() < 64 ==> r.history == m.history.push(
                    (ts, m.category->0),
                )
                &&& m.category is Some && m.history.len() >= 64 ==> r.history
                    == m.history.drop_first().push((ts, m.category->0))
            }
        }),
{
    if m.category is Some && m.history.len() >= 64 {
        assert(m.history.push((ts, m.category->0)).drop_first() =~= m.history.drop_first().push(
            (ts, m.category->0),
        ));
    }
}

/// A state begins when it is first judged, and the one before it is remembered; as long as
/// it is judged again, its beginning stays.
pub proof fn law_state_begins(m: MachineView, ts: Seconds)
    ensures
        m.moved(ts).state == m.judged(ts),
        m.judged(ts) == m.state ==> m.moved(ts) == m,
        m.judged(ts) != m.state ==> m.moved(ts) == (MachineView {
            state: m.judged(ts),
            state_started_at: ts,
            previous_state: Some(m.state),
            ..m
        }),
{
}

/// A snapshot tells the state, since when, the window in front, the time without input, the
/// switches of the last five minutes, and the time since the last message.
pub proof fn law_snapshot(m: MachineView, ts: Seconds, hour: u32, weekday: u32)
    requires
        i64::MIN <= ts.micros - m.moved(ts).state_started_at.micros <= i64::MAX,
        m.last_user_msg_at matches Some(t) ==> i64::MIN <= ts.micros - t.micros <= i64::MAX,
    ensures
        ({
            let s = m.snapshot(ts, hour, weekday);
            &&& s.state == m.judged(ts)
            &&& s.state_age_seconds.micros == ts.micros - m.moved(ts).state_started_at.micros
            &&& s.active_window == m.window
            &&& s.idle_seconds == m.idle
            &&& s.switch_rate_5min == m.history.filter(
                |e: (Seconds, WindowCategory)| ts.micros - e.0.micros <= 300_000_000,
            ).len()
            &&& m.last_user_msg_at is None ==> s.seconds_since_user_msg is None
            &&& m.last_user_msg_at matches Some(t) ==> s.seconds_since_user_msg matches Some(d)
                && d.micros == ts.micros - t.micros
            &&& s.hour == hour && s.weekday == weekday
        }),
{
    law_switches(m.history, ts);
}

/// How open the user is, how likely a remark is to be skipped, and the tone that fits: in
/// private nothing is said; at work and away only about the screen, and away every second
/// time; else anything.
pub proof fn law_mood(m: MachineView, ts: Seconds, hour: u32, weekday: u32)
    ensures
        ({
            let s = m.snapshot(ts, hour, weekday);
            &&& s.state == ActivityState::Private ==> s.propensity == Propensity::Closed
                && s.skip_probability == 1_000_000_000 && s.tone == "勿扰"@
            &&& s.state == ActivityState::Away ==> s.propensity == Propensity::RestrictedScreenOnly
                && s.skip_probability == 500_000_000 && s.tone == "安静"@
            &&& s.state == ActivityState::FocusedWork ==> s.propensity
                == Propensity::RestrictedScreenOnly && s.skip_probability == 0 && s.tone == "简洁"@
            &&& s.state == ActivityState::Transitioning ==> s.propensity == Propensity::Open
                && s.skip_probability == 0 && s.tone == "简洁"@
            &&& s.state == ActivityState::CasualBrowsing || s.state == ActivityState::Idle
                ==> s.propensity == Propensity::Open && s.skip_probability == 0 && s.tone == "俏皮"@
            &&& s.state == ActivityState::Chatting ==> s.propensity == Propensity::Open
                && s.skip_probability == 0 && s.tone == "温暖"@
        }),
{
}

/// The signature of an activity tells its state and its category, so that two activities
/// that differ in either do not share it.
pub proof fn law_signature(m: MachineView)
    ensures
        stands_in(m.signature(), m.state.name_text()),
        m.category matches Some(c) ==> m.signature() == m.state.name_text() + "|"@ + c.name_text(),
        m.category is None ==> m.signature() == m.state.name_text() + "|"@ + "None"@,
{
    let rest = match m.category {
        Some(c) => c.name_text(),
        None => "None"@,
    };
    lemma_stands_in_sum(Seq::empty(), m.state.name_text(), "|"@ + rest);
    assert(m.state.name_text() + ("|"@ + rest) =~= m.state.name_text() + "|"@ + rest);
}

/// The state in words tells what the user is doing and where, how open the user is, and, if
/// somebody has said it, what the user seems to be doing.
pub proof fn law_activity_in_words(s: SnapshotView)
    ensures
        stands_in(
            activity_section(s),
            s.state.label_text() + "（"@ + s.active_window + "）· "@ + s.propensity.label_text(),
        ),
        s.activity_guess.len() > 0 ==> stands_in(
            activity_section(s),
            "\n【叙述】"@ + s.activity_guess,
        ),
        stands_in(activity_section(s), " 秒 · 5分钟切换 "@ + decimal(s.switch_rate_5min) + " 次窗口"@),
{
    let title = "【当前活动】\n"@;
    let first = s.state.label_text() + "（"@ + s.active_window + "）· "@
        + s.propensity.label_text();
    let middle = "\n"@ + crate::activity::period_of(s.hour) + " "@ + decimal(s.hour as int) + "点"@
        + crate::activity::since_message(s.seconds_since_user_msg) + crate::activity::since_input(
        s.idle_seconds,
    ) + "\n状态持续 "@ + decimal(
        crate::clock::quotient(s.state_age_seconds.micros as int, 1_000_000),
    );
    let second = " 秒 · 5分钟切换 "@ + decimal(s.switch_rate_5min) + " 次窗口"@;
    let end = crate::activity::guess_line(s.activity_guess);
    let r = activity_section(s);
    assert(r =~= title + first + (middle + second + end));
    assert(r =~= (title + first + middle) + second + end);
    assert(r =~= (title + first + middle + second) + end);
    lemma_stands_in_sum(title, first, middle + second + end);
    lemma_stands_in_sum(title + first + middle, second, end);
    lemma_stands_in_sum(title + first + middle + second, end, Seq::empty());
}

/// The names of the states and of how open the user is, as they are shown.
pub proof fn law_labels(s: ActivityState, p: Propensity)
    ensures
        s == ActivityState::Away ==> s.label_text() == "离开"@ && s.name_text() == "Away"@,
        s == ActivityState::Private ==> s.label_text() == "隐私模式"@ && s.name_text() == "Private"@,
        s == ActivityState::FocusedWork ==> s.label_text() == "专注工作"@ && s.name_text()
            == "FocusedWork"@,
        s == ActivityState::CasualBrowsing ==> s.label_text() == "休闲浏览"@ && s.name_text()
            == "CasualBrowsing"@,
        s == ActivityState::Chatting ==> s.label_text() == "聊天中"@ && s.name_text() == "Chatting"@,
        s == ActivityState::Transitioning ==> s.label_text() == "切换中"@ && s.name_text()
            == "Transitioning"@,
        s == ActivityState::Idle ==> s.label_text() == "空闲"@ && s.name_text() == "Idle"@,
        p == Propensity::Closed ==> p.label_text() == "勿扰"@,
        p == Propensity::RestrictedScreenOnly ==> p.label_text() == "屏幕吐槽"@,
        p == Propensity::Open ==> p.label_text() == "可搭话"@,
{
}

/// The part of the day by the hour: night to five, morning to eleven, noon to one, afternoon
/// to five, evening to midnight.
pub proof fn law_period(hour: u32)
    ensures
        hour < 6 ==> crate::activity::period_of(hour) == "凌晨"@,
        6 <= hour < 12 ==> crate::activity::period_of(hour) == "上午"@,
        12 <= hour < 14 ==> crate::activity::period_of(hour) == "中午"@,
        14 <= hour < 18 ==> crate::activity::period_of(hour) == "下午"@,
        18 <= hour < 24 ==> crate::activity::period_of(hour) == "晚上"@,
{
}

/// The time since the last message is told in whole seconds below a minute, in whole minutes
/// below an hour, and else in whole hours; the time without input in whole minutes, from one
/// minute on.
pub proof fn law_since(seconds: int, rest: int, idle: u32)
    requires
        0 <= seconds,
        0 <= rest < 1_000_000,
        seconds * 1_000_000 + rest <= i64::MAX,
    ensures
        ({
            let span = Some((Seconds { micros: (seconds * 1_000_000 + rest) as i64 }));
            let w = crate::activity::since_message(span);
            &&& seconds < 60 ==> w == " · 用户 "@ + decimal(seconds) + " 秒前"@
            &&& 60 <= seconds < 3600 ==> w == " · 用户 "@ + decimal(seconds / 60) + " 分钟前"@
            &&& 3600 <= seconds ==> w == " · 用户 "@ + decimal(seconds / 3600) + " 小时前"@
        }),
        crate::activity::since_message(None).len() == 0,
        idle < 60 ==> crate::activity::since_input(idle).len() == 0,
        idle >= 60 ==> crate::activity::since_input(idle) == " · 空闲 "@ + decimal(
            idle as int / 60,
        ) + " 分钟"@,
{
    let n = seconds * 1_000_000 + rest;
    assert(n / 1_000_000 == seconds);
    assert(n / 60_000_000 == seconds / 60);
    assert(n / 3_600_000_000 == seconds / 3600);
}

/// The names of the categories.
pub proof fn law_category_names(c: WindowCategory)
    ensures
        c == WindowCategory::Work ==> c.name_text() == "Work"@,
        c == WindowCategory::Communication ==> c.name_text() == "Communication"@,
        c == WindowCategory::Entertainment ==> c.name_text() == "Entertainment"@,
        c == WindowCategory::Private ==> c.name_text() == "Private"@,
        c == WindowCategory::OwnApp ==> c.name_text() == "OwnApp"@,
        c == WindowCategory::Unknown ==> c.name_text() == "Unknown"@,
{
}

/// At the start the user is idle since now, nothing is known of windows and messages, and
/// there were no switches.
pub proof fn law_machine_at_start(now: Seconds)
    ensures
        ({
            let m = MachineView::fresh(now);
            &&& m.state == ActivityState::Idle && m.state_started_at == now
            &&& m.previous_state is None && m.category is None && m.window.len() == 0
            &&& m.window_started_at.micros == 0 && m.history.len() == 0 && m.idle == 0
            &&& m.last_user_msg_at is None
        }),
{
}

/// Where nobody has said what the user seems to be doing, nothing is told of it.
pub proof fn law_no_description_in_words(guess: Seq<char>)
    ensures
        guess.len() == 0 ==> crate::activity::guess_line(guess).len() == 0,
        guess.len() > 0 ==> crate::activity::guess_line(guess) == "\n【叙述】"@ + guess,
{
}

} // verus!
