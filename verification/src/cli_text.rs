use vstd::prelude::*;

use crate::responses::{StatusInterfaceIpv4, StatusResponseData};
use crate::scan::ScanCandidateInfo;
use vstd::string::StrSliceExecFns;

use crate::text::{decimal, signed_decimal, append_decimal, append_signed_decimal, text, text_eq};

verus! {

/// The language of the command-line client's messages.
#[derive(Clone, Copy, Debug, PartialEq, Eq, Structural)]
pub enum Lang {
    En,
    Zh,
}

/// `c` with ASCII upper-case letters made lower-case.
pub open spec fn ascii_lower(c: char) -> char {
    if 'A' <= c && c <= 'Z' {
        ((c as u32) + 32) as char
    } else {
        c
    }
}

/// `--lang en` in any ASCII letter case selects English; anything else Chinese.
pub open spec fn lang_of_arg(value: Seq<char>) -> Lang {
    if value.len() == 2 && ascii_lower(value[0]) == 'e' && ascii_lower(value[1]) == 'n' {
        Lang::En
    } else {
        Lang::Zh
    }
}

/// The message for `key` in `lang`; an unknown key stands for itself.
pub open spec fn translation(lang: Lang, key: Seq<char>) -> Seq<char> {
    if key == "found_conn"@ {
        match lang { Lang::En => "✅ Selected device: {}. Connecting..."@, Lang::Zh => "✅ 已选择设备：{}。正在建立连接..."@ }
    } else if key == "handshake_ok"@ {
        match lang { Lang::En => "✅ Handshake complete. Characteristics discovered."@, Lang::Zh => "✅ 握手通讯完成。已捕捉读写通道频道。"@ }
    } else if key == "prompt_device"@ {
        match lang { Lang::En => "Select a device to connect:"@, Lang::Zh => "请选择要连接的设备:"@ }
    } else if key == "scan_results"@ {
        match lang { Lang::En => "Discovered candidate devices:"@, Lang::Zh => "发现以下候选设备:"@ }
    } else if key == "single_match"@ {
        match lang { Lang::En => "Only one candidate found. Using it automatically."@, Lang::Zh => "仅发现一台候选设备，将自动使用该设备。"@ }
    } else if key == "opt_stat"@ {
        match lang { Lang::En => "📡 Network / System Status"@, Lang::Zh => "📡 获取系统及网络状态"@ }
    } else if key == "opt_scan"@ {
        match lang { Lang::En => "🔍 Scan Wi-Fi Hotspots"@, Lang::Zh => "🔍 扫描周边 Wi-Fi 信号"@ }
    } else if key == "opt_prov"@ {
        match lang { Lang::En => "🔑 Provision Wi-Fi"@, Lang::Zh => "🔑 下发核心网配网卡"@ }
    } else if key == "opt_exit"@ {
        match lang { Lang::En => "🚪 Exit"@, Lang::Zh => "🚪 退出"@ }
    } else if key == "prompt_menu"@ {
        match lang { Lang::En => "Select an operation:"@, Lang::Zh => "↓请使用方向键选择需要执行的指令:"@ }
    } else if key == "prmpt_ssid"@ {
        match lang { Lang::En => "Enter Target SSID:"@, Lang::Zh => "请输入需连接到的 Wi-Fi 账号 (SSID):"@ }
    } else if key == "prmpt_pwd"@ {
        match lang { Lang::En => "Enter Wi-Fi Password (hidden):"@, Lang::Zh => "请输入 Wi-Fi 密码 (隐藏输入不显示):"@ }
    } else {
        key
    }
}

/// `"🔍 Scanning for devices with prefix '{target}' for {timeout}s..."`, or its Chinese form.
pub open spec fn scan_header_text(lang: Lang, target: Seq<char>, timeout: u64) -> Seq<char> {
    match lang {
        Lang::En => "🔍 Scanning for devices with prefix '"@ + target + "' for "@ + decimal(
            timeout as nat,
        ) + "s..."@,
        Lang::Zh => "🔍 正在扫描前缀为 '"@ + target + "' 的蓝牙设备（超时 "@ + decimal(timeout as nat)
            + " 秒）..."@,
    }
}

impl Lang {
    pub fn from_cli_arg(value: &str) -> (r: Lang)
        ensures
            r == lang_of_arg(value@),
    {
        let n = value.unicode_len();
        if n != 2 {
            return Lang::Zh;
        }
        let a = value.get_char(0);
        let b = value.get_char(1);
        if (a == 'e' || a == 'E') && (b == 'n' || b == 'N') {
            Lang::En
        } else {
            Lang::Zh
        }
    }

    /// The message for `key`; a key without a message is returned as it is.
    pub fn t<'a>(&self, key: &'a str) -> (r: &'a str)
        ensures
            r@ == translation(*self, key@),
    {
        if text_eq(key, "found_conn") {
            return match self { Lang::En => "✅ Selected device: {}. Connecting...", Lang::Zh => "✅ 已选择设备：{}。正在建立连接..." };
        }
        if text_eq(key, "handshake_ok") {
            return match self { Lang::En => "✅ Handshake complete. Characteristics discovered.", Lang::Zh => "✅ 握手通讯完成。已捕捉读写通道频道。" };
        }
        if text_eq(key, "prompt_device") {
            return match self { Lang::En => "Select a device to connect:", Lang::Zh => "请选择要连接的设备:" };
        }
        if text_eq(key, "scan_results") {
            return match self { Lang::En => "Discovered candidate devices:", Lang::Zh => "发现以下候选设备:" };
        }
        if text_eq(key, "single_match") {
            return match self { Lang::En => "Only one candidate found. Using it automatically.", Lang::Zh => "仅发现一台候选设备，将自动使用该设备。" };
        }
        if text_eq(key, "opt_stat") {
            return match self { Lang::En => "📡 Network / System Status", Lang::Zh => "📡 获取系统及网络状态" };
        }
        if text_eq(key, "opt_scan") {
            return match self { Lang::En => "🔍 Scan Wi-Fi Hotspots", Lang::Zh => "🔍 扫描周边 Wi-Fi 信号" };
        }
        if text_eq(key, "opt_prov") {
            return match self { Lang::En => "🔑 Provision Wi-Fi", Lang::Zh => "🔑 下发核心网配网卡" };
        }
        if text_eq(key, "opt_exit") {
            return match self { Lang::En => "🚪 Exit", Lang::Zh => "🚪 退出" };
        }
        if text_eq(key, "prompt_menu") {
            return match self { Lang::En => "Select an operation:", Lang::Zh => "↓请使用方向键选择需要执行的指令:" };
        }
        if text_eq(key, "prmpt_ssid") {
            return match self { Lang::En => "Enter Target SSID:", Lang::Zh => "请输入需连接到的 Wi-Fi 账号 (SSID):" };
        }
        if text_eq(key, "prmpt_pwd") {
            return match self { Lang::En => "Enter Wi-Fi Password (hidden):", Lang::Zh => "请输入 Wi-Fi 密码 (隐藏输入不显示):" };
        }
        key
    }

    pub fn scan_header(&self, target: &str, timeout: u64) -> (r: String)
        ensures
            r@ == scan_header_text(*self, target@, timeout),
    {
        let mut out = String::new();
        match self {
            Lang::En => {
                out.append("🔍 Scanning for devices with prefix '");
                out.append(target);
                out.append("' for ");
                append_decimal(&mut out, timeout);
                out.append("s...");
            },
            Lang::Zh => {
                out.append("🔍 正在扫描前缀为 '");
                out.append(target);
                out.append("' 的蓝牙设备（超时 ");
                append_decimal(&mut out, timeout);
                out.append(" 秒）...");
            },
        }
        assert(out@ =~= scan_header_text(*self, target@, timeout));
        out
    }
}

/// `"{name} ({rssi} dBm)"`, or `"{name} (RSSI unknown)"` without a signal reading.
pub open spec fn candidate_label(c: ScanCandidateInfo) -> Seq<char> {
    c.name@ + " ("@ + match c.rssi {
        Some(v) => signed_decimal(v as int) + " dBm"@,
        None => "RSSI unknown"@,
    } + ")"@
}

pub fn format_scan_candidate_label(candidate: &ScanCandidateInfo) -> (r: String)
    ensures
        r@ == candidate_label(*candidate),
{
    let mut out = text(candidate.name.as_str());
    out.append(" (");
    match candidate.rssi {
        Some(v) => {
            append_signed_decimal(&mut out, v as i64);
            out.append(" dBm");
        },
        None => out.append("RSSI unknown"),
    }
    out.append(")");
    assert(out@ =~= candidate_label(*candidate));
    out
}

/// Arguments that only ask for help or the version, which the client answers without
/// touching Bluetooth.
pub open spec fn local_query_word(a: Seq<char>) -> bool {
    a == "-h"@ || a == "--help"@ || a == "-V"@ || a == "--version"@ || a == "help"@
}

pub fn is_local_cli_query(args: &[String]) -> (r: bool)
    ensures
        r == (args@.len() == 0 || exists|i: int| 0 <= i < args@.len() && local_query_word(
            #[trigger] args@[i]@,
        )),
{
    if args.len() == 0 {
        return true;
    }
    let mut i: usize = 0;
    while i < args.len()
        invariant
            i <= args@.len(),
            forall|j: int| 0 <= j < i ==> !local_query_word(#[trigger] args@[j]@),
        decreases args@.len() - i,
    {
        let a = args[i].as_str();
        if text_eq(a, "-h") || text_eq(a, "--help") || text_eq(a, "-V") || text_eq(a, "--version")
            || text_eq(a, "help") {
            assert(local_query_word(args@[i as int]@));
            return true;
        }
        i = i + 1;
    }
    false
}

/// One row of the status table.
pub open spec fn row_view(r: (String, String)) -> (Seq<char>, Seq<char>) {
    (r.0@, r.1@)
}

/// The status table: fixed rows for the device, then one row per interface, or a single
/// `Interfaces: none` row.
pub open spec fn status_table(d: StatusResponseData) -> Seq<(Seq<char>, Seq<char>)> {
    seq![
        ("Device"@, d.device_name@),
        ("Hostname"@, d.hostname@),
        ("System"@, d.system@),
        ("User"@, d.user@),
        ("Network"@, match d.network { Some(n) => n@, None => "Not connected"@ }),
        ("Preferred IP"@, match d.ip { Some(n) => n@, None => "Unavailable"@ }),
    ] + if d.interfaces@.len() == 0 {
        seq![("Interfaces"@, "none"@)]
    } else {
        d.interfaces@.map_values(|i: StatusInterfaceIpv4| ("Interface"@, i.summary()))
    }
}

fn optional_or(value: &Option<String>, fallback: &str) -> (r: String)
    ensures
        r@ == match value { Some(v) => v@, None => fallback@ },
{
    match value {
        Some(v) => text(v.as_str()),
        None => text(fallback),
    }
}

pub fn status_rows(data: &StatusResponseData) -> (r: Vec<(String, String)>)
    ensures
        r@.map_values(|x: (String, String)| row_view(x)) == status_table(*data),
{
    let mut rows: Vec<(String, String)> = Vec::new();
    rows.push((text("Device"), text(data.device_name.as_str())));
    rows.push((text("Hostname"), text(data.hostname.as_str())));
    rows.push((text("System"), text(data.system.as_str())));
    rows.push((text("User"), text(data.user.as_str())));
    rows.push((text("Network"), optional_or(&data.network, "Not connected")));
    rows.push((text("Preferred IP"), optional_or(&data.ip, "Unavailable")));
    let ghost head = rows@.map_values(|x: (String, String)| row_view(x));
    if data.interfaces.len() == 0 {
        rows.push((text("Interfaces"), text("none")));
    } else {
        let mut i: usize = 0;
        while i < data.interfaces.len()
            invariant
                i <= data.interfaces@.len(),
                rows@.len() == 6 + i,
                rows@.map_values(|x: (String, String)| row_view(x)) == head + data.interfaces@.subrange(0, i as int).map_values(
                    |it: StatusInterfaceIpv4| ("Interface"@, it.summary()),
                ),
            decreases data.interfaces@.len() - i,
        {
            let ghost before = rows@;
            let line = data.interfaces[i].summary_line();
            let row = (text("Interface"), line);
            proof {
                reveal_strlit("Interface");
            }
            rows.push(row);
            i = i + 1;
            proof {
                let f = |x: (String, String)| row_view(x);
                let g = |it: StatusInterfaceIpv4| ("Interface"@, it.summary());
                let lhs = rows@.map_values(f);
                let rhs = head + data.interfaces@.subrange(0, i as int).map_values(g);
                let prev = head + data.interfaces@.subrange(0, i - 1).map_values(g);
                assert(before.map_values(f) == prev);
                assert(rows@ == before.push(row));
                assert forall|k: int| 0 <= k < lhs.len() implies lhs[k] == rhs[k] by {
                    if k < before.len() {
                        assert(lhs[k] == before.map_values(f)[k]);
                        assert(prev[k] == rhs[k]);
                    } else {
                        assert(lhs[k] == f(row));
                        assert(rhs[k] == g(data.interfaces@[i - 1]));
                    }
                }
                assert(lhs =~= rhs);
            }
        }
        assert(data.interfaces@.subrange(0, data.interfaces@.len() as int) =~= data.interfaces@);
    }
    assert(rows@.map_values(|x: (String, String)| row_view(x)) =~= status_table(*data));
    rows
}

} // verus!
