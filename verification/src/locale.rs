//! User-visible texts of the desktop shell, in two languages.

use vstd::prelude::*;
use crate::text::{self, decimal_text, lowercase};

verus! {

/// Supported languages of the interface.
#[derive(PartialEq, Eq, Structural, Clone, Copy, Debug)]
pub enum Lang {
    /// Chinese
    Zh,
    /// English
    En,
}

/// The language that a locale name stands for.
pub open spec fn locale_lang(name: Seq<char>) -> Lang {
    let lower = lowercase(name);
    if lower.len() >= 2 && lower[0] == 'z' && lower[1] == 'h' {
        Lang::Zh
    } else {
        Lang::En
    }
}

impl Lang {
    /// The language of a settings value; an empty or unknown value leaves it
    /// to the system locale.
    pub fn from_settings(value: &str, system_locale: &str) -> (r: Lang)
        ensures
            r == (if value@ == "zh"@ {
                Lang::Zh
            } else if value@ == "en"@ {
                Lang::En
            } else {
                locale_lang(system_locale@)
            }),
    {
        if text::same(value, "zh") {
            Lang::Zh
        } else if text::same(value, "en") {
            Lang::En
        } else {
            let lower = text::to_lowercase(system_locale);
            let chars: Vec<char> = text::chars_of(lower.as_str());
            if chars.len() >= 2 && chars[0] == 'z' && chars[1] == 'h' {
                Lang::Zh
            } else {
                Lang::En
            }
        }
    }
}

/// A text with every place of `mark` filled by `value`.
pub open spec fn filled(template: Seq<char>, mark: Seq<char>, value: Seq<char>) -> Seq<char>
    decreases template.len(),
{
    if template.len() == 0 || mark.len() == 0 {
        template
    } else if template.len() >= mark.len() && template.take(mark.len() as int) == mark {
        value + filled(template.skip(mark.len() as int), mark, value)
    } else {
        seq![template[0]] + filled(template.drop_first(), mark, value)
    }
}

/// Fills every place of `mark` by `value`.
fn fill(template: &str, mark: &str, value: &str) -> (r: String)
    requires
        mark@.len() > 0,
    ensures
        r@ == filled(template@, mark@, value@),
{
    let t: Vec<char> = text::chars_of(template);
    let m: Vec<char> = text::chars_of(mark);
    let mut out = String::new();
    let mut i: usize = 0;
    proof {
        assert(t@.skip(0) =~= t@);
        assert(out@ + filled(t@, m@, value@) =~= filled(t@, m@, value@));
    }
    while i < t.len()
        invariant
            i <= t.len(),
            t@ == template@,
            m@ == mark@,
            m.len() > 0,
            out@ + filled(t@.skip(i as int), m@, value@) == filled(t@, m@, value@),
        decreases t.len() - i,
    {
        let ghost rest = t@.skip(i as int);
        let ghost before = out@;
        let mut j: usize = 0;
        while j < m.len() && j < t.len() - i && t[i + j] == m[j]
            invariant
                i <= t.len(),
                j <= m.len(),
                j <= t.len() - i,
                rest == t@.skip(i as int),
                forall|k: int| 0 <= k < j ==> rest[k] == m@[k],
            decreases m.len() - j,
        {
            j += 1;
        }
        if j == m.len() {
            proof {
                assert(rest.take(m@.len() as int) =~= m@);
                assert(rest.skip(m@.len() as int) =~= t@.skip(i + j));
            }
            out.append(value);
            proof {
                let tail = filled(t@.skip(i + j), m@, value@);
                assert(before + (value@ + tail) =~= (before + value@) + tail);
            }
            i = i + j;
        } else {
            proof {
                if rest.len() >= m@.len() && rest.take(m@.len() as int) == m@ {
                    assert(rest.take(m@.len() as int)[j as int] == m@[j as int]);
                }
                assert(rest.drop_first() =~= t@.skip(i + 1));
            }
            out.push(t[i]);
            proof {
                let tail = filled(t@.skip(i + 1), m@, value@);
                assert(before + (seq![t@[i as int]] + tail) =~= before.push(t@[i as int]) + tail);
            }
            i += 1;
        }
    }
    proof {
        assert(t@.skip(i as int) =~= Seq::<char>::empty());
        assert(out@ + filled(t@.skip(i as int), m@, value@) =~= out@);
    }
    out
}

/// The texts of the desktop shell in one language.
pub struct ShellTexts {
    /// Tray menu: sync toggle
    pub tray_sync: &'static str,
    /// Tray menu: history panel
    pub tray_history: &'static str,
    /// Tray menu: open settings
    pub tray_settings: &'static str,
    /// Tray menu: about
    pub tray_about: &'static str,
    /// Tray menu: quit
    pub tray_quit: &'static str,
    /// Notification title: pairing request ({name} is the peer)
    pub pair_request_title: &'static str,
    /// Notification body: what to do about a pairing request
    pub pair_request_body: &'static str,
    /// Notification title: synced from a peer ({name} is the source)
    pub synced_from_title: &'static str,
    /// The word for an image in a notification
    pub image_word: &'static str,
    /// Tray tooltip: pending pairing requests ({n} is the count)
    pub tray_pending_tooltip: &'static str,
    /// Startup dialog title, when the engine cannot start
    pub start_failed_title: &'static str,
    /// Startup dialog hint
    pub start_failed_hint: &'static str,
}

impl ShellTexts {
    /// The title of a pairing request.
    pub fn pair_request(&self, name: &str) -> (r: String)
        ensures
            r@ == filled(self.pair_request_title@, "{name}"@, name@),
    {
        proof {
            reveal_strlit("{name}");
        }
        fill(self.pair_request_title, "{name}", name)
    }

    /// The title of a sync notification.
    pub fn synced_from(&self, name: &str) -> (r: String)
        ensures
            r@ == filled(self.synced_from_title@, "{name}"@, name@),
    {
        proof {
            reveal_strlit("{name}");
        }
        fill(self.synced_from_title, "{name}", name)
    }

    /// The tray tooltip for pending pairing requests.
    pub fn tray_pending(&self, n: usize) -> (r: String)
        ensures
            r@ == filled(self.tray_pending_tooltip@, "{n}"@, decimal_text(n as nat)),
    {
        proof {
            reveal_strlit("{n}");
        }
        let count = text::decimal(n as u64);
        fill(self.tray_pending_tooltip, "{n}", count.as_str())
    }
}

/// The texts of a language.
pub open spec fn texts_in(lang: Lang) -> ShellTexts {
    match lang {
        Lang::Zh => ShellTexts {
            tray_sync: "剪贴板同步",
            tray_history: "历史面板",
            tray_settings: "偏好设置…",
            tray_about: "关于",
            tray_quit: "退出",
            pair_request_title: "{name} 请求配对",
            pair_request_body: "打开 Lanecho 接受或拒绝",
            synced_from_title: "已从 {name} 同步",
            image_word: "图像",
            tray_pending_tooltip: "Lanecho — {n} 个配对请求待处理",
            start_failed_title: "Lanecho 启动失败",
            start_failed_hint: "若同机还开着另一个 Lanecho 客户端(端口冲突): 先退出对方, 启动本应用改掉端口, 之后即可同时运行。",
        },
        Lang::En => ShellTexts {
            tray_sync: "Clipboard sync",
            tray_history: "History panel",
            tray_settings: "Preferences…",
            tray_about: "About",
            tray_quit: "Quit",
            pair_request_title: "Pairing request from {name}",
            pair_request_body: "Open Lanecho to accept or decline",
            synced_from_title: "Synced from {name}",
            image_word: "Image",
            tray_pending_tooltip: "Lanecho — {n} pairing request(s) pending",
            start_failed_title: "Lanecho failed to start",
            start_failed_hint: "If another Lanecho client is running on this machine (port conflict): quit it, start this app to change the port, then run both.",
        },
    }
}

/// The texts of a language.
pub fn texts(lang: Lang) -> (r: ShellTexts)
    ensures
        r == texts_in(lang),
{
    match lang {
        Lang::Zh => ShellTexts {
            tray_sync: "剪贴板同步",
            tray_history: "历史面板",
            tray_settings: "偏好设置…",
            tray_about: "关于",
            tray_quit: "退出",
            pair_request_title: "{name} 请求配对",
            pair_request_body: "打开 Lanecho 接受或拒绝",
            synced_from_title: "已从 {name} 同步",
            image_word: "图像",
            tray_pending_tooltip: "Lanecho — {n} 个配对请求待处理",
            start_failed_title: "Lanecho 启动失败",
            start_failed_hint: "若同机还开着另一个 Lanecho 客户端(端口冲突): 先退出对方, 启动本应用改掉端口, 之后即可同时运行。",
        },
        Lang::En => ShellTexts {
            tray_sync: "Clipboard sync",
            tray_history: "History panel",
            tray_settings: "Preferences…",
            tray_about: "About",
            tray_quit: "Quit",
            pair_request_title: "Pairing request from {name}",
            pair_request_body: "Open Lanecho to accept or decline",
            synced_from_title: "Synced from {name}",
            image_word: "Image",
            tray_pending_tooltip: "Lanecho — {n} pairing request(s) pending",
            start_failed_title: "Lanecho failed to start",
            start_failed_hint: "If another Lanecho client is running on this machine (port conflict): quit it, start this app to change the port, then run both.",
        },
    }
}

/// A text without the mark stays as it is.
pub proof fn law_nothing_to_fill(template: Seq<char>, mark: Seq<char>, value: Seq<char>)
    requires
        mark.len() > 0,
        !text::occurs(mark, template),
    ensures
        filled(template, mark, value) == template,
    decreases template.len(),
{
    if template.len() > 0 {
        let rest = template.drop_first();
        if text::occurs(mark, rest) {
            let i = choose|i: int| text::occurs_at(mark, rest, i);
            assert(template.subrange(i + 1, i + 1 + mark.len()) =~= rest.subrange(i, i + mark.len()));
            assert(text::occurs_at(mark, template, i + 1));
        }
        if template.len() >= mark.len() && template.take(mark.len() as int) == mark {
            assert(template.subrange(0, mark.len() as int) =~= mark);
            assert(text::occurs_at(mark, template, 0));
        }
        law_nothing_to_fill(rest, mark, value);
        assert(seq![template[0]] + rest =~= template);
    }
}

/// Every place of a mark is filled: what stands in front of the first one stays,
/// the value takes its place, and what follows is filled in turn.
pub proof fn law_marks_are_filled(
    before: Seq<char>,
    mark: Seq<char>,
    behind: Seq<char>,
    value: Seq<char>,
)
    requires
        mark.len() > 0,
        !before.contains(mark[0]),
    ensures
        filled(before + mark + behind, mark, value) == before + value + filled(behind, mark, value),
    decreases before.len(),
{
    let t = before + mark + behind;
    let n = mark.len() as int;
    if before.len() == 0 {
        assert(t =~= mark + behind);
        assert(t.take(n) =~= mark);
        assert(t.skip(n) =~= behind);
        assert(before + value + filled(behind, mark, value) =~= value + filled(behind, mark, value));
    } else {
        let rest = before.drop_first();
        assert(before[0] != mark[0]);
        assert(t[0] == before[0]);
        if t.len() >= n && t.take(n) == mark {
            assert(t.take(n)[0] == mark[0]);
        }
        assert forall|i: int| 0 <= i < rest.len() implies rest[i] != mark[0] by {
            assert(rest[i] == before[i + 1]);
        }
        assert(t.drop_first() =~= rest + mark + behind);
        law_marks_are_filled(rest, mark, behind, value);
        assert(seq![before[0]] + (rest + value + filled(behind, mark, value)) =~= before + value
            + filled(behind, mark, value));
    }
}

/// A locale is Chinese when it begins with the code of the language, whatever the
/// case, and English otherwise.
pub proof fn law_locale(name: Seq<char>, rest: Seq<char>)
    ensures
        lowercase(name) == seq!['z', 'h'] + rest ==> locale_lang(name) == Lang::Zh,
        lowercase(name).len() < 2 || lowercase(name).take(2) != seq!['z', 'h'] ==> locale_lang(name)
            == Lang::En,
{
    let lower = lowercase(name);
    if lower.len() >= 2 && lower[0] == 'z' && lower[1] == 'h' {
        assert(lower.take(2) =~= seq!['z', 'h']);
    }
}

} // verus!
