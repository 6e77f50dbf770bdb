//! Interface texts in English, Vietnamese and Chinese. The language is chosen
//! from the locale (`LC_ALL`, else `LC_MESSAGES`, else `LANG`), which the
//! application reads; lookups fall back to English, then to the key itself.

use vstd::prelude::*;
use crate::text::{chars_of, dec, dec_signed, find, find_chars, lowercase, push_dec, push_dec_signed, slice_of, starts_with, string_of, to_lowercase};

verus! {

#[derive(Debug, Clone, Copy, PartialEq, Eq, Structural)]
pub enum Lang {
    En,
    Vi,
    Zh,
}

/// The language of a locale string: Vietnamese for `vi…`, Chinese for `zh…`
/// (after lower-casing), English otherwise.
pub open spec fn spec_lang(raw: Seq<char>) -> Lang {
    if "vi"@.is_prefix_of(lowercase(raw)) {
        Lang::Vi
    } else if "zh"@.is_prefix_of(lowercase(raw)) {
        Lang::Zh
    } else {
        Lang::En
    }
}

pub fn lang_from_locale(raw: &str) -> (r: Lang)
    ensures
        r == spec_lang(raw@),
{
    let lower = to_lowercase(raw);
    let lv = chars_of(lower.as_str());
    let vi = chars_of("vi");
    let zh = chars_of("zh");
    if starts_with(lv.as_slice(), vi.as_slice()) {
        Lang::Vi
    } else if starts_with(lv.as_slice(), zh.as_slice()) {
        Lang::Zh
    } else {
        Lang::En
    }
}

pub open spec fn en_entries() -> Seq<(Seq<char>, Seq<char>)> {
    seq![
        ("Refresh ports"@, "Refresh ports"@),
        ("Ports"@, "Ports"@),
        ("Ignored"@, "Ignored"@),
        ("Scanning ports…"@, "Scanning ports…"@),
        ("No dev ports running"@, "No dev ports running"@),
        ("Other"@, "Other"@),
        ("footer"@, "{0} ports · {1} tunnels"@),
        ("Check for Updates"@, "Check for Updates"@),
        ("Check for a newer version"@, "Check for a newer version"@),
        ("Quit"@, "Quit"@),
        ("Open in browser"@, "Open in browser"@),
        ("Copy URL"@, "Copy URL"@),
        ("Kill process"@, "Kill process"@),
        ("Un-ignore"@, "Un-ignore"@),
        ("ignore_x"@, "Ignore {0}"@),
        ("ignore_process"@, "Ignore process {0}"@),
        ("ignore_port"@, "Ignore port {0}"@),
        ("kill_pid"@, "Kill PID {0}?"@),
        ("Kill"@, "Kill"@),
        ("Cancel"@, "Cancel"@),
        ("Open Porthole"@, "Open Porthole"@),
        ("Refresh"@, "Refresh"@),
        ("Check for Updates…"@, "Check for Updates…"@),
        ("Quit Porthole"@, "Quit Porthole"@),
        ("Nothing ignored"@, "Nothing ignored"@),
        ("Rules (not running)"@, "Rules (not running)"@),
        ("Ignore a port…"@, "Ignore a port…"@),
        ("Add"@, "Add"@),
        ("Porthole"@, "Porthole"@),
        ("Up to date"@, "You are on the latest version."@),
        ("Update available"@, "A new version is available."@),
    ]
}

fn en_table() -> (r: Vec<(&'static str, &'static str)>)
    ensures
        r@.map_values(|p: (&str, &str)| (p.0@, p.1@)) == en_entries(),
{
    let r = vec![
        ("Refresh ports", "Refresh ports"),
        ("Ports", "Ports"),
        ("Ignored", "Ignored"),
        ("Scanning ports…", "Scanning ports…"),
        ("No dev ports running", "No dev ports running"),
        ("Other", "Other"),
        ("footer", "{0} ports · {1} tunnels"),
        ("Check for Updates", "Check for Updates"),
        ("Check for a newer version", "Check for a newer version"),
        ("Quit", "Quit"),
        ("Open in browser", "Open in browser"),
        ("Copy URL", "Copy URL"),
        ("Kill process", "Kill process"),
        ("Un-ignore", "Un-ignore"),
        ("ignore_x", "Ignore {0}"),
        ("ignore_process", "Ignore process {0}"),
        ("ignore_port", "Ignore port {0}"),
        ("kill_pid", "Kill PID {0}?"),
        ("Kill", "Kill"),
        ("Cancel", "Cancel"),
        ("Open Porthole", "Open Porthole"),
        ("Refresh", "Refresh"),
        ("Check for Updates…", "Check for Updates…"),
        ("Quit Porthole", "Quit Porthole"),
        ("Nothing ignored", "Nothing ignored"),
        ("Rules (not running)", "Rules (not running)"),
        ("Ignore a port…", "Ignore a port…"),
        ("Add", "Add"),
        ("Porthole", "Porthole"),
        ("Up to date", "You are on the latest version."),
        ("Update available", "A new version is available."),
    ];
    assert(r@.map_values(|p: (&str, &str)| (p.0@, p.1@)) =~= en_entries());
    r
}

pub open spec fn vi_entries() -> Seq<(Seq<char>, Seq<char>)> {
    seq![
        ("Refresh ports"@, "Làm mới cổng"@),
        ("Ports"@, "Cổng"@),
        ("Ignored"@, "Đã ẩn"@),
        ("Scanning ports…"@, "Đang quét cổng…"@),
        ("No dev ports running"@, "Không có cổng dev nào đang chạy"@),
        ("Other"@, "Khác"@),
        ("footer"@, "{0} cổng · {1} tunnel"@),
        ("Check for Updates"@, "Kiểm tra cập nhật"@),
        ("Check for a newer version"@, "Kiểm tra phiên bản mới"@),
        ("Quit"@, "Thoát"@),
        ("Open in browser"@, "Mở trong trình duyệt"@),
        ("Copy URL"@, "Sao chép URL"@),
        ("Kill process"@, "Tắt tiến trình"@),
        ("Un-ignore"@, "Bỏ ẩn"@),
        ("ignore_x"@, "Ẩn {0}"@),
        ("ignore_process"@, "Ẩn tiến trình {0}"@),
        ("ignore_port"@, "Ẩn cổng {0}"@),
        ("kill_pid"@, "Tắt PID {0}?"@),
        ("Kill"@, "Tắt"@),
        ("Cancel"@, "Huỷ"@),
        ("Open Porthole"@, "Mở Porthole"@),
        ("Refresh"@, "Làm mới"@),
        ("Check for Updates…"@, "Kiểm tra cập nhật…"@),
        ("Quit Porthole"@, "Thoát Porthole"@),
        ("Nothing ignored"@, "Chưa ẩn gì"@),
        ("Rules (not running)"@, "Quy tắc (không chạy)"@),
        ("Ignore a port…"@, "Ẩn một cổng…"@),
        ("Add"@, "Thêm"@),
        ("Porthole"@, "Porthole"@),
        ("Up to date"@, "Bạn đang dùng phiên bản mới nhất."@),
        ("Update available"@, "Đã có phiên bản mới."@),
    ]
}

fn vi_table() -> (r: Vec<(&'static str, &'static str)>)
    ensures
        r@.map_values(|p: (&str, &str)| (p.0@, p.1@)) == vi_entries(),
{
    let r = vec![
        ("Refresh ports", "Làm mới cổng"),
        ("Ports", "Cổng"),
        ("Ignored", "Đã ẩn"),
        ("Scanning ports…", "Đang quét cổng…"),
        ("No dev ports running", "Không có cổng dev nào đang chạy"),
        ("Other", "Khác"),
        ("footer", "{0} cổng · {1} tunnel"),
        ("Check for Updates", "Kiểm tra cập nhật"),
        ("Check for a newer version", "Kiểm tra phiên bản mới"),
        ("Quit", "Thoát"),
        ("Open in browser", "Mở trong trình duyệt"),
        ("Copy URL", "Sao chép URL"),
        ("Kill process", "Tắt tiến trình"),
        ("Un-ignore", "Bỏ ẩn"),
        ("ignore_x", "Ẩn {0}"),
        ("ignore_process", "Ẩn tiến trình {0}"),
        ("ignore_port", "Ẩn cổng {0}"),
        ("kill_pid", "Tắt PID {0}?"),
        ("Kill", "Tắt"),
        ("Cancel", "Huỷ"),
        ("Open Porthole", "Mở Porthole"),
        ("Refresh", "Làm mới"),
        ("Check for Updates…", "Kiểm tra cập nhật…"),
        ("Quit Porthole", "Thoát Porthole"),
        ("Nothing ignored", "Chưa ẩn gì"),
        ("Rules (not running)", "Quy tắc (không chạy)"),
        ("Ignore a port…", "Ẩn một cổng…"),
        ("Add", "Thêm"),
        ("Porthole", "Porthole"),
        ("Up to date", "Bạn đang dùng phiên bản mới nhất."),
        ("Update available", "Đã có phiên bản mới."),
    ];
    assert(r@.map_values(|p: (&str, &str)| (p.0@, p.1@)) =~= vi_entries());
    r
}

pub open spec fn zh_entries() -> Seq<(Seq<char>, Seq<char>)> {
    seq![
        ("Refresh ports"@, "刷新端口"@),
        ("Ports"@, "端口"@),
        ("Ignored"@, "已忽略"@),
        ("Scanning ports…"@, "正在扫描端口…"@),
        ("No dev ports running"@, "没有正在运行的开发端口"@),
        ("Other"@, "其他"@),
        ("footer"@, "{0} 个端口 · {1} 个隧道"@),
        ("Check for Updates"@, "检查更新"@),
        ("Check for a newer version"@, "检查新版本"@),
        ("Quit"@, "退出"@),
        ("Open in browser"@, "在浏览器中打开"@),
        ("Copy URL"@, "复制链接"@),
        ("Kill process"@, "结束进程"@),
        ("Un-ignore"@, "取消忽略"@),
        ("ignore_x"@, "忽略 {0}"@),
        ("ignore_process"@, "忽略进程 {0}"@),
        ("ignore_port"@, "忽略端口 {0}"@),
        ("kill_pid"@, "结束 PID {0}？"@),
        ("Kill"@, "结束"@),
        ("Cancel"@, "取消"@),
        ("Open Porthole"@, "打开 Porthole"@),
        ("Refresh"@, "刷新"@),
        ("Check for Updates…"@, "检查更新…"@),
        ("Quit Porthole"@, "退出 Porthole"@),
        ("Nothing ignored"@, "没有忽略项"@),
        ("Rules (not running)"@, "规则（未运行）"@),
        ("Ignore a port…"@, "忽略一个端口…"@),
        ("Add"@, "添加"@),
        ("Porthole"@, "Porthole"@),
        ("Up to date"@, "已是最新版本。"@),
        ("Update available"@, "有新版本可用。"@),
    ]
}

fn zh_table() -> (r: Vec<(&'static str, &'static str)>)
    ensures
        r@.map_values(|p: (&str, &str)| (p.0@, p.1@)) == zh_entries(),
{
    let r = vec![
        ("Refresh ports", "刷新端口"),
        ("Ports", "端口"),
        ("Ignored", "已忽略"),
        ("Scanning ports…", "正在扫描端口…"),
        ("No dev ports running", "没有正在运行的开发端口"),
        ("Other", "其他"),
        ("footer", "{0} 个端口 · {1} 个隧道"),
        ("Check for Updates", "检查更新"),
        ("Check for a newer version", "检查新版本"),
        ("Quit", "退出"),
        ("Open in browser", "在浏览器中打开"),
        ("Copy URL", "复制链接"),
        ("Kill process", "结束进程"),
        ("Un-ignore", "取消忽略"),
        ("ignore_x", "忽略 {0}"),
        ("ignore_process", "忽略进程 {0}"),
        ("ignore_port", "忽略端口 {0}"),
        ("kill_pid", "结束 PID {0}？"),
        ("Kill", "结束"),
        ("Cancel", "取消"),
        ("Open Porthole", "打开 Porthole"),
        ("Refresh", "刷新"),
        ("Check for Updates…", "检查更新…"),
        ("Quit Porthole", "退出 Porthole"),
        ("Nothing ignored", "没有忽略项"),
        ("Rules (not running)", "规则（未运行）"),
        ("Ignore a port…", "忽略一个端口…"),
        ("Add", "添加"),
        ("Porthole", "Porthole"),
        ("Up to date", "已是最新版本。"),
        ("Update available", "有新版本可用。"),
    ];
    assert(r@.map_values(|p: (&str, &str)| (p.0@, p.1@)) =~= zh_entries());
    r
}

/// The entries of a language.
pub open spec fn entries(lang: Lang) -> Seq<(Seq<char>, Seq<char>)> {
    match lang {
        Lang::En => en_entries(),
        Lang::Vi => vi_entries(),
        Lang::Zh => zh_entries(),
    }
}

/// The value of the first entry from index `i` whose key is `key`.
pub open spec fn lookup_from(t: Seq<(Seq<char>, Seq<char>)>, key: Seq<char>, i: int) -> Option<Seq<char>>
    decreases t.len() - i,
{
    if i < 0 || i >= t.len() {
        None
    } else if t[i].0 == key {
        Some(t[i].1)
    } else {
        lookup_from(t, key, i + 1)
    }
}

/// The text for `key`: the language's entry, else the English one, else the
/// key itself.
pub open spec fn spec_tr(lang: Lang, key: Seq<char>) -> Seq<char> {
    match lookup_from(entries(lang) + en_entries(), key, 0) {
        Some(v) => v,
        None => key,
    }
}

fn table(lang: Lang) -> (r: Vec<(&'static str, &'static str)>)
    ensures
        r@.map_values(|p: (&str, &str)| (p.0@, p.1@)) == entries(lang),
{
    match lang {
        Lang::En => en_table(),
        Lang::Vi => vi_table(),
        Lang::Zh => zh_table(),
    }
}

/// Look up a key for `lang`, falling back to English, then to the key.
pub fn tr(lang: Lang, key: &str) -> (r: &'static str)
    ensures
        r@ == spec_tr(lang, key@),
{
    let mut t = table(lang);
    let mut en = en_table();
    let ghost tv = t@.map_values(|p: (&str, &str)| (p.0@, p.1@));
    let ghost ev = en@.map_values(|p: (&str, &str)| (p.0@, p.1@));
    t.append(&mut en);
    let ghost all = t@.map_values(|p: (&str, &str)| (p.0@, p.1@));
    assert(all =~= tv + ev);
    let kv = chars_of(key);
    let mut i: usize = 0;
    while i < t.len()
        invariant
            all == t@.map_values(|p: (&str, &str)| (p.0@, p.1@)),
            all == entries(lang) + en_entries(),
            kv@ == key@,
            0 <= i <= t@.len(),
            lookup_from(all, key@, 0) == lookup_from(all, key@, i as int),
        decreases t@.len() - i,
    {
        let (k, v) = t[i];
        assert(all[i as int] == (k@, v@));
        let kc = chars_of(k);
        if crate::text::chars_eq(kc.as_slice(), kv.as_slice()) {
            return v;
        }
        i = i + 1;
    }
    leak_static(key)
}

/// Leaks a copy of `s` so that it lives for the rest of the program
/// (`Box::leak` of a boxed copy); the copy has the same text.
#[verifier::external_body]
fn leak_static(s: &str) -> (r: &'static str)
    ensures
        r@ == s@,
{
    Box::leak(s.to_string().into_boxed_str())
}

/// `str::replacen(pat, with, 1)`: the first occurrence of `pat` replaced.
pub open spec fn replace_first(s: Seq<char>, pat: Seq<char>, with: Seq<char>) -> Seq<char> {
    match find(s, pat) {
        Some(i) => s.take(i) + with + s.skip(i + pat.len()),
        None => s,
    }
}

/// `s.replacen(pat, with, 1)`.
pub fn replacen_once(s: &str, pat: &str, with: &str) -> (r: String)
    ensures
        r@ == replace_first(s@, pat@, with@),
{
    let sv = chars_of(s);
    let pv = chars_of(pat);
    match find_chars(sv.as_slice(), pv.as_slice()) {
        Some(i) => {
            proof {
                crate::text::lemma_find_from_found(sv@, pv@, 0);
            }
            let n = sv.len();
            let mut out = string_of(slice_of(sv.as_slice(), 0, i).as_slice());
            out.append(with);
            let tail = string_of(slice_of(sv.as_slice(), i + pv.len(), n).as_slice());
            out.append(tail.as_str());
            assert(out@ =~= replace_first(s@, pat@, with@));
            out
        },
        None => String::from_str(s),
    }
}

/// `"{0} ports · {1} tunnels"` with the counts filled in.
pub open spec fn spec_footer(lang: Lang, ports: nat, tunnels: nat) -> Seq<char> {
    replace_first(
        replace_first(spec_tr(lang, "footer"@), "{0}"@, dec(ports)),
        "{1}"@,
        dec(tunnels),
    )
}

pub fn footer(lang: Lang, ports: usize, tunnels: usize) -> (r: String)
    ensures
        r@ == spec_footer(lang, ports as nat, tunnels as nat),
{
    let mut p = String::new();
    push_dec(&mut p, ports as u64);
    let mut t = String::new();
    push_dec(&mut t, tunnels as u64);
    let first = replacen_once(tr(lang, "footer"), "{0}", p.as_str());
    replacen_once(first.as_str(), "{1}", t.as_str())
}

/// The text of `key` with its `{0}` replaced by `arg`.
pub open spec fn spec_with_arg(lang: Lang, key: Seq<char>, arg: Seq<char>) -> Seq<char> {
    replace_first(spec_tr(lang, key), "{0}"@, arg)
}

pub fn ignore_x(lang: Lang, name: &str) -> (r: String)
    ensures
        r@ == spec_with_arg(lang, "ignore_x"@, name@),
{
    replacen_once(tr(lang, "ignore_x"), "{0}", name)
}

pub fn ignore_process(lang: Lang, name: &str) -> (r: String)
    ensures
        r@ == spec_with_arg(lang, "ignore_process"@, name@),
{
    replacen_once(tr(lang, "ignore_process"), "{0}", name)
}

pub fn ignore_port(lang: Lang, port: u16) -> (r: String)
    ensures
        r@ == spec_with_arg(lang, "ignore_port"@, dec(port as nat)),
{
    let mut p = String::new();
    push_dec(&mut p, port as u64);
    replacen_once(tr(lang, "ignore_port"), "{0}", p.as_str())
}

pub fn kill_pid(lang: Lang, pid: i32) -> (r: String)
    ensures
        r@ == spec_with_arg(lang, "kill_pid"@, dec_signed(pid as int)),
{
    let mut p = String::new();
    push_dec_signed(&mut p, pid as i64);
    replacen_once(tr(lang, "kill_pid"), "{0}", p.as_str())
}

} // verus!
