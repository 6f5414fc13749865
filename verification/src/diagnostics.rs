//! What the diagnostics report and the log take from their inputs: the
//! Windows version out of the `ver` output, the settings line (without the
//! key itself), the whole report put together, and messages forwarded by
//! the web pages.
use vstd::prelude::*;
use crate::text::{chars_of, string_of, trimmed, trim_chars};
use crate::settings::{glossary_view, Settings};
use crate::dates::{decimal, decimal_string, padded, padded_chars};

verus! {

pub open spec fn ver_char(c: char) -> bool {
    ('0' <= c <= '9') || c == '.'
}

/// End of the run of digits and dots that begins at `i`.
pub open spec fn run_end(s: Seq<char>, i: int) -> int
    decreases s.len() - i,
{
    if 0 <= i < s.len() && ver_char(s[i]) {
        run_end(s, i + 1)
    } else {
        i
    }
}

pub open spec fn count_dots(t: Seq<char>) -> nat
    decreases t.len(),
{
    if t.len() == 0 {
        0
    } else {
        count_dots(t.drop_last()) + if t.last() == '.' { 1nat } else { 0nat }
    }
}

/// A version number begins at `i`: a run of digits and dots starts there,
/// with a digit, and holds at least two dots.
pub open spec fn version_at(s: Seq<char>, i: int) -> bool {
    &&& 0 <= i < s.len()
    &&& (i == 0 || !ver_char(s[i - 1]))
    &&& '0' <= s[i] <= '9'
    &&& count_dots(s.subrange(i, run_end(s, i))) >= 2
}

/// The first version number at or after `i`.
pub open spec fn find_version(s: Seq<char>, i: int) -> Option<Seq<char>>
    decreases s.len() - i,
{
    if i < 0 || i >= s.len() {
        None
    } else if version_at(s, i) {
        Some(s.subrange(i, run_end(s, i)))
    } else {
        find_version(s, i + 1)
    }
}

/// The Windows version in the output of `ver`: the first run of digits and
/// dots that begins with a digit and has at least two dots (the rest of the
/// line may be garbled by a wrong code page), or "未知".
pub open spec fn windows_version_spec(raw: Seq<char>) -> Seq<char> {
    match find_version(raw, 0) {
        Some(v) => v,
        None => "未知"@,
    }
}

proof fn lemma_run_end_bounds(s: Seq<char>, i: int)
    requires
        0 <= i <= s.len(),
    ensures
        i <= run_end(s, i) <= s.len(),
        forall|k: int| i <= k < run_end(s, i) ==> ver_char(#[trigger] s[k]),
        run_end(s, i) < s.len() ==> !ver_char(s[run_end(s, i)]),
    decreases s.len() - i,
{
    if i < s.len() && ver_char(s[i]) {
        lemma_run_end_bounds(s, i + 1);
    }
}

fn is_ver_char(c: char) -> (b: bool)
    ensures
        b == ver_char(c),
{
    ('0' <= c && c <= '9') || c == '.'
}

/// Extracts the Windows version from the output of `ver`.
pub fn parse_windows_version(raw: &str) -> (r: String)
    ensures
        r@ == windows_version_spec(raw@),
{
    let s = chars_of(raw);
    let n = s.len();
    let mut i: usize = 0;
    while i < n
        invariant
            n == s@.len(),
            s@ == raw@,
            i <= n,
            find_version(s@, 0) == find_version(s@, i as int),
        decreases n - i,
    {
        let starts = (i == 0 || !is_ver_char(s[i - 1])) && '0' <= s[i] && s[i] <= '9';
        if starts {
            let mut j: usize = i;
            let mut dots: usize = 0;
            proof {
                lemma_run_end_bounds(s@, i as int);
            }
            while j < n && is_ver_char(s[j])
                invariant
                    n == s@.len(),
                    i <= j <= n,
                    run_end(s@, i as int) == run_end(s@, j as int),
                    dots == count_dots(s@.subrange(i as int, j as int)),
                    dots <= j - i,
                decreases n - j,
            {
                assert(s@.subrange(i as int, j + 1).drop_last() =~= s@.subrange(i as int, j as int));
                if s[j] == '.' {
                    dots = dots + 1;
                }
                j = j + 1;
            }
            assert(run_end(s@, j as int) == j);
            if dots >= 2 {
                assert(version_at(s@, i as int));
                let mut t: Vec<char> = Vec::new();
                let mut k: usize = i;
                while k < j
                    invariant
                        i <= k <= j <= n,
                        n == s@.len(),
                        t@ == s@.subrange(i as int, k as int),
                    decreases j - k,
                {
                    t.push(s[k]);
                    assert(s@.subrange(i as int, k + 1) =~= s@.subrange(i as int, k as int).push(s@[k as int]));
                    k = k + 1;
                }
                return string_of(t.as_slice());
            }
        }
        i = i + 1;
    }
    String::from_str("未知")
}

/// The settings line of the diagnostics. The key itself never appears, only
/// whether one is set.
pub open spec fn settings_line_spec(
    key_set: bool,
    toggle: Seq<char>,
    quick: Seq<char>,
    ctrl_tap: bool,
    target: Seq<char>,
    domain: Seq<char>,
    terms: nat,
    reminder: bool,
    reminder_time: Seq<char>,
) -> Seq<char> {
    "设置: API Key "@ + (if key_set { "已填写"@ } else { "未填写"@ }) + " | 显示快捷键 "@ + toggle
        + " | 划词快捷键 "@ + quick + " | 单击Ctrl划词 "@ + (if ctrl_tap { "开"@ } else { "关"@ })
        + " | 目标语言 "@ + target + " | 领域 "@ + domain + " | 术语 "@ + decimal(terms) + " 条 | 提醒 "@
        + (if reminder { "开"@ } else { "关"@ }) + " "@ + reminder_time + "\n"@
}

/// The settings line of the diagnostics report.
pub fn settings_line(st: &Settings) -> (r: String)
    ensures
        r@ == settings_line_spec(
            trimmed(st.api_key@, false).len() > 0,
            st.toggle_shortcut@,
            st.quick_translate_shortcut@,
            st.ctrl_tap_translate,
            st.target_lang@,
            st.domain@,
            st.glossary@.len(),
            st.reminder_enabled,
            st.reminder_time@,
        ),
{
    let key_set = trim_chars(&chars_of(st.api_key.as_str()), false).len() > 0;
    let mut out = String::from_str("设置: API Key ");
    out.append(if key_set { "已填写" } else { "未填写" });
    out.append(" | 显示快捷键 ");
    out.append(st.toggle_shortcut.as_str());
    out.append(" | 划词快捷键 ");
    out.append(st.quick_translate_shortcut.as_str());
    out.append(" | 单击Ctrl划词 ");
    out.append(if st.ctrl_tap_translate { "开" } else { "关" });
    out.append(" | 目标语言 ");
    out.append(st.target_lang.as_str());
    out.append(" | 领域 ");
    out.append(st.domain.as_str());
    out.append(" | 术语 ");
    out.append(decimal_string(st.glossary.len() as u64).as_str());
    out.append(" 条 | 提醒 ");
    out.append(if st.reminder_enabled { "开" } else { "关" });
    out.append(" ");
    out.append(st.reminder_time.as_str());
    out.append("\n");
    proof {
        assert(out@ =~= settings_line_spec(
            key_set,
            st.toggle_shortcut@,
            st.quick_translate_shortcut@,
            st.ctrl_tap_translate,
            st.target_lang@,
            st.domain@,
            st.glossary@.len(),
            st.reminder_enabled,
            st.reminder_time@,
        ));
    }
    out
}

/// The line of display number `n`: its size in pixels and its scale in
/// percent.
pub open spec fn monitor_line_spec(n: nat, width: nat, height: nat, scale_pct: int) -> Seq<char> {
    "显示器"@ + decimal(n) + ": "@ + decimal(width) + "x"@ + decimal(height) + " 缩放"@ + padded(scale_pct, 0)
        + "%\n"@
}

/// The display lines, numbered from 1; each display is (width, height,
/// scale in percent).
pub open spec fn monitor_lines(ms: Seq<(u32, u32, i64)>) -> Seq<char>
    decreases ms.len(),
{
    if ms.len() == 0 {
        Seq::empty()
    } else {
        monitor_lines(ms.drop_last()) + monitor_line_spec(
            ms.len(),
            ms.last().0 as nat,
            ms.last().1 as nat,
            ms.last().2 as int,
        )
    }
}

/// The diagnostics report: the program's version, the Windows version when
/// known, the displays, the settings line, whether the program starts with
/// Windows, and the tail of the log.
pub open spec fn report_spec(
    version: Seq<char>,
    windows: Option<Seq<char>>,
    ms: Seq<(u32, u32, i64)>,
    settings_line: Seq<char>,
    autostart: bool,
    log_tail: Seq<char>,
) -> Seq<char> {
    "软件版本: "@ + version + "\n"@ + (match windows {
        Some(v) => "系统: Windows "@ + v + "\n"@,
        None => Seq::empty(),
    }) + monitor_lines(ms) + settings_line + "开机自启: "@ + (if autostart { "true"@ } else { "false"@ })
        + "\n"@ + "\n--- 最近日志 ---\n"@ + log_tail
}

/// The text of an optional string.
pub open spec fn text_opt(s: &Option<String>) -> Option<Seq<char>> {
    match s {
        Some(v) => Some(v@),
        None => None,
    }
}

/// One display line.
pub fn monitor_line(n: u64, width: u32, height: u32, scale_pct: i64) -> (r: String)
    ensures
        r@ == monitor_line_spec(n as nat, width as nat, height as nat, scale_pct as int),
{
    let mut out = String::from_str("显示器");
    out.append(decimal_string(n).as_str());
    out.append(": ");
    out.append(decimal_string(width as u64).as_str());
    out.append("x");
    out.append(decimal_string(height as u64).as_str());
    out.append(" 缩放");
    let pct = padded_chars(scale_pct, 0);
    out.append(string_of(pct.as_slice()).as_str());
    out.append("%\n");
    proof {
        assert(out@ =~= monitor_line_spec(n as nat, width as nat, height as nat, scale_pct as int));
    }
    out
}

/// The diagnostics report from what the app gathered: `version` of the
/// program, `windows` version (when read), the `monitors` as (width,
/// height, scale in percent), the settings, whether `autostart` is on, and
/// the `log_tail`.
pub fn diagnostics_report(
    version: &str,
    windows: Option<String>,
    monitors: &Vec<(u32, u32, i64)>,
    st: &Settings,
    autostart: bool,
    log_tail: &str,
) -> (r: String)
    ensures
        r@ == report_spec(
            version@,
            text_opt(&windows),
            monitors@,
            settings_line_spec(
                trimmed(st.api_key@, false).len() > 0,
                st.toggle_shortcut@,
                st.quick_translate_shortcut@,
                st.ctrl_tap_translate,
                st.target_lang@,
                st.domain@,
                st.glossary@.len(),
                st.reminder_enabled,
                st.reminder_time@,
            ),
            autostart,
            log_tail@,
        ),
{
    let mut out = String::from_str("软件版本: ");
    out.append(version);
    out.append("\n");
    let ghost wv: Option<Seq<char>> = text_opt(&windows);
    match &windows {
        Some(v) => {
            out.append("系统: Windows ");
            out.append(v.as_str());
            out.append("\n");
        }
        None => {}
    }
    let ghost head = out@;
    assert(head =~= "软件版本: "@ + version@ + "\n"@ + (match wv {
        Some(v) => "系统: Windows "@ + v + "\n"@,
        None => Seq::empty(),
    }));
    let mut i: usize = 0;
    while i < monitors.len()
        invariant
            i <= monitors@.len(),
            out@ == head + monitor_lines(monitors@.take(i as int)),
        decreases monitors@.len() - i,
    {
        let (w, h, pct) = monitors[i];
        let line = monitor_line((i + 1) as u64, w, h, pct);
        out.append(line.as_str());
        assert(monitors@.take(i + 1).drop_last() =~= monitors@.take(i as int));
        i = i + 1;
        assert(out@ =~= head + monitor_lines(monitors@.take(i as int)));
    }
    assert(monitors@.take(monitors@.len() as int) =~= monitors@);
    out.append(settings_line(st).as_str());
    out.append("开机自启: ");
    out.append(if autostart { "true" } else { "false" });
    out.append("\n");
    out.append("\n--- 最近日志 ---\n");
    out.append(log_tail);
    proof {
        assert(out@ =~= report_spec(
            version@,
            wv,
            monitors@,
            settings_line_spec(
                trimmed(st.api_key@, false).len() > 0,
                st.toggle_shortcut@,
                st.quick_translate_shortcut@,
                st.ctrl_tap_translate,
                st.target_lang@,
                st.domain@,
                st.glossary@.len(),
                st.reminder_enabled,
                st.reminder_time@,
            ),
            autostart,
            log_tail@,
        ));
    }
    out
}

/// A message forwarded by a web page, as logged: "[前端] " and at most its
/// first 500 characters; at error level when the page says "error", as a
/// warning otherwise.
pub fn frontend_log_line(level: &str, msg: &str) -> (r: (bool, String))
    ensures
        r.0 == (level@ == "error"@),
        r.1@ == "[前端] "@ + (if msg@.len() <= 500 { msg@ } else { msg@.take(500) }),
{
    let v = chars_of(msg);
    let mut out = String::from_str("[前端] ");
    let cut: usize = if v.len() <= 500 { v.len() } else { 500 };
    let mut t: Vec<char> = Vec::new();
    let mut i: usize = 0;
    while i < cut
        invariant
            cut <= v@.len(),
            i <= cut,
            t@ == v@.take(i as int),
        decreases cut - i,
    {
        t.push(v[i]);
        assert(v@.take(i + 1) =~= v@.take(i as int).push(v@[i as int]));
        i = i + 1;
    }
    out.append(string_of(t.as_slice()).as_str());
    proof {
        if v@.len() <= 500 {
            assert(v@.take(cut as int) =~= v@);
        }
    }
    (crate::settings::same_text(level, "error"), out)
}

/// Whether `s` holds anything but whitespace.
pub fn has_text(s: &str) -> (b: bool)
    ensures
        b == (trimmed(s@, false).len() > 0),
{
    trim_chars(&chars_of(s), false).len() > 0
}

} // verus!
