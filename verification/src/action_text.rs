use vstd::prelude::*;

use crate::cli_text::{translation, Lang};
use crate::gui_model::{ActionFeedback, ActionSlot, AppModel};
use crate::text::{decimal, append_decimal, text, text_eq};

verus! {

/// The status line of a running action.
pub open spec fn running_message(lang: Lang, slot: ActionSlot) -> Seq<char> {
    match slot {
        ActionSlot::DeviceScan => match lang { Lang::Zh => "正在搜索设备..."@, Lang::En => "Searching for devices..."@ },
        ActionSlot::Connect => match lang { Lang::Zh => "正在连接设备..."@, Lang::En => "Connecting to device..."@ },
        ActionSlot::Disconnect => match lang { Lang::Zh => "正在断开连接..."@, Lang::En => "Disconnecting..."@ },
        ActionSlot::WifiScan => match lang { Lang::Zh => "正在扫描周边 Wi-Fi..."@, Lang::En => "Scanning nearby Wi-Fi..."@ },
        ActionSlot::Provision => match lang { Lang::Zh => "正在发送配网请求..."@, Lang::En => "Sending provisioning request..."@ },
        ActionSlot::Status => match lang { Lang::Zh => "正在抓取系统信息..."@, Lang::En => "Fetching system info..."@ },
        ActionSlot::Ping => match lang { Lang::Zh => "正在执行连通性测试..."@, Lang::En => "Running reachability test..."@ },
        ActionSlot::Help => match lang { Lang::Zh => "正在请求远程支持信息..."@, Lang::En => "Requesting remote help..."@ },
        ActionSlot::RawSend => match lang { Lang::Zh => "正在发送原始负载..."@, Lang::En => "Sending raw payload..."@ },
        ActionSlot::LogsCopy => match lang { Lang::Zh => "正在复制日志..."@, Lang::En => "Copying logs..."@ },
        ActionSlot::LogsClear => match lang { Lang::Zh => "正在清空日志..."@, Lang::En => "Clearing logs..."@ },
    }
}

pub fn running_text(lang: Lang, slot: ActionSlot) -> (r: &'static str)
    ensures
        r@ == running_message(lang, slot),
{
    match slot {
        ActionSlot::DeviceScan => match lang { Lang::Zh => "正在搜索设备...", Lang::En => "Searching for devices..." },
        ActionSlot::Connect => match lang { Lang::Zh => "正在连接设备...", Lang::En => "Connecting to device..." },
        ActionSlot::Disconnect => match lang { Lang::Zh => "正在断开连接...", Lang::En => "Disconnecting..." },
        ActionSlot::WifiScan => match lang { Lang::Zh => "正在扫描周边 Wi-Fi...", Lang::En => "Scanning nearby Wi-Fi..." },
        ActionSlot::Provision => match lang { Lang::Zh => "正在发送配网请求...", Lang::En => "Sending provisioning request..." },
        ActionSlot::Status => match lang { Lang::Zh => "正在抓取系统信息...", Lang::En => "Fetching system info..." },
        ActionSlot::Ping => match lang { Lang::Zh => "正在执行连通性测试...", Lang::En => "Running reachability test..." },
        ActionSlot::Help => match lang { Lang::Zh => "正在请求远程支持信息...", Lang::En => "Requesting remote help..." },
        ActionSlot::RawSend => match lang { Lang::Zh => "正在发送原始负载...", Lang::En => "Sending raw payload..." },
        ActionSlot::LogsCopy => match lang { Lang::Zh => "正在复制日志...", Lang::En => "Copying logs..." },
        ActionSlot::LogsClear => match lang { Lang::Zh => "正在清空日志...", Lang::En => "Clearing logs..." },
    }
}

pub open spec fn or_text(o: Option<Seq<char>>, fallback: Seq<char>) -> Seq<char> {
    match o {
        Some(t) => t,
        None => fallback,
    }
}

/// The status line of an action that succeeded; `detail` is what the action reported.
pub open spec fn success_message(lang: Lang, slot: ActionSlot, detail: Option<Seq<char>>) -> Seq<char> {
    match slot {
        ActionSlot::DeviceScan => if detail == Some("stopped"@) {
            match lang { Lang::Zh => "扫描已手动停止。"@, Lang::En => "Scan stopped by user."@ }
        } else {
            match lang {
                Lang::Zh => "扫描完成，发现 "@ + or_text(detail, "0"@) + " 个候选设备。"@,
                Lang::En => "Scan complete, found "@ + or_text(detail, "0"@) + " candidate device(s)."@,
            }
        },
        ActionSlot::Connect => match lang {
            Lang::Zh => "已连接到 "@ + or_text(detail, "设备"@) + "。"@,
            Lang::En => "Connected to "@ + or_text(detail, "device"@) + "."@,
        },
        ActionSlot::Disconnect => match lang {
            Lang::Zh => "已断开 "@ + or_text(detail, "设备"@) + "。"@,
            Lang::En => "Disconnected from "@ + or_text(detail, "device"@) + "."@,
        },
        ActionSlot::WifiScan => match lang {
            Lang::Zh => "已发现 "@ + or_text(detail, "0"@) + " 个网络。"@,
            Lang::En => "Discovered "@ + or_text(detail, "0"@) + " network(s)."@,
        },
        ActionSlot::Provision => match lang { Lang::Zh => "配网请求已完成。"@, Lang::En => "Provision request completed."@ },
        ActionSlot::Status => match lang { Lang::Zh => "系统信息已更新。"@, Lang::En => "System info updated."@ },
        ActionSlot::Ping => match lang { Lang::Zh => "连通性测试已完成。"@, Lang::En => "Reachability test completed."@ },
        ActionSlot::Help => match lang { Lang::Zh => "远程支持信息已更新。"@, Lang::En => "Remote help updated."@ },
        ActionSlot::RawSend => match lang { Lang::Zh => "原始负载已写入 BLE 特征。"@, Lang::En => "Raw payload written to BLE characteristic."@ },
        ActionSlot::LogsCopy => match lang { Lang::Zh => "日志已复制。"@, Lang::En => "Logs copied."@ },
        ActionSlot::LogsClear => match lang { Lang::Zh => "日志已清空。"@, Lang::En => "Logs cleared."@ },
    }
}

fn opt_str(o: &Option<String>, fallback: &str) -> (r: String)
    ensures
        r@ == or_text(match o { Some(s) => Some(s@), None => None }, fallback@),
{
    match o {
        Some(s) => text(s.as_str()),
        None => text(fallback),
    }
}

fn framed(head: &str, middle: String, tail: &str) -> (r: String)
    ensures
        r@ == head@ + middle@ + tail@,
{
    let mut out = text(head);
    out.append(middle.as_str());
    out.append(tail);
    out
}

pub open spec fn detail_view(f: ActionFeedback) -> Option<Seq<char>> {
    match f.detail {
        Some(s) => Some(s@),
        None => None,
    }
}

pub fn success_text(lang: Lang, feedback: &ActionFeedback) -> (r: String)
    ensures
        r@ == success_message(lang, feedback.slot, detail_view(*feedback)),
{
    let stopped = match &feedback.detail {
        Some(d) => text_eq(d.as_str(), "stopped"),
        None => false,
    };
    let d = &feedback.detail;
    match feedback.slot {
        ActionSlot::DeviceScan => if stopped {
            text(match lang { Lang::Zh => "扫描已手动停止。", Lang::En => "Scan stopped by user." })
        } else {
            match lang {
                Lang::Zh => framed("扫描完成，发现 ", opt_str(d, "0"), " 个候选设备。"),
                Lang::En => framed("Scan complete, found ", opt_str(d, "0"), " candidate device(s)."),
            }
        },
        ActionSlot::Connect => match lang {
            Lang::Zh => framed("已连接到 ", opt_str(d, "设备"), "。"),
            Lang::En => framed("Connected to ", opt_str(d, "device"), "."),
        },
        ActionSlot::Disconnect => match lang {
            Lang::Zh => framed("已断开 ", opt_str(d, "设备"), "。"),
            Lang::En => framed("Disconnected from ", opt_str(d, "device"), "."),
        },
        ActionSlot::WifiScan => match lang {
            Lang::Zh => framed("已发现 ", opt_str(d, "0"), " 个网络。"),
            Lang::En => framed("Discovered ", opt_str(d, "0"), " network(s)."),
        },
        ActionSlot::Provision => text(match lang { Lang::Zh => "配网请求已完成。", Lang::En => "Provision request completed." }),
        ActionSlot::Status => text(match lang { Lang::Zh => "系统信息已更新。", Lang::En => "System info updated." }),
        ActionSlot::Ping => text(match lang { Lang::Zh => "连通性测试已完成。", Lang::En => "Reachability test completed." }),
        ActionSlot::Help => text(match lang { Lang::Zh => "远程支持信息已更新。", Lang::En => "Remote help updated." }),
        ActionSlot::RawSend => text(match lang { Lang::Zh => "原始负载已写入 BLE 特征。", Lang::En => "Raw payload written to BLE characteristic." }),
        ActionSlot::LogsCopy => text(match lang { Lang::Zh => "日志已复制。", Lang::En => "Logs copied." }),
        ActionSlot::LogsClear => text(match lang { Lang::Zh => "日志已清空。", Lang::En => "Logs cleared." }),
    }
}

/// The status line of an action that failed.
pub open spec fn failure_message(lang: Lang, error: Option<Seq<char>>) -> Seq<char> {
    match lang {
        Lang::Zh => "操作失败: "@ + or_text(error, "unknown error"@),
        Lang::En => "Action failed: "@ + or_text(error, "unknown error"@),
    }
}

pub fn failure_text(lang: Lang, feedback: &ActionFeedback) -> (r: String)
    ensures
        r@ == failure_message(lang, match feedback.error { Some(s) => Some(s@), None => None }),
{
    let error = opt_str(&feedback.error, "unknown error");
    match lang {
        Lang::Zh => {
            let mut out = text("操作失败: ");
            out.append(error.as_str());
            out
        },
        Lang::En => {
            let mut out = text("Action failed: ");
            out.append(error.as_str());
            out
        },
    }
}

pub fn idle_text(lang: Lang) -> (r: &'static str)
    ensures
        r@ == (match lang { Lang::Zh => "空闲"@, Lang::En => "Idle"@ }),
{
    match lang {
        Lang::Zh => "空闲",
        Lang::En => "Idle",
    }
}

/// Whether the running action belongs to the panel of `slots`.
pub fn panel_is_refreshing(model: &AppModel, slots: &[ActionSlot]) -> (r: bool)
    ensures
        r == (model.active_action is Some && slots@.contains(model.active_action->0)),
{
    match model.active_action {
        None => false,
        Some(active) => {
            let mut k: usize = 0;
            while k < slots.len()
                invariant
                    k <= slots@.len(),
                    model.active_action == Some(active),
                    forall|j: int| 0 <= j < k ==> slots@[j] != active,
                decreases slots@.len() - k,
            {
                if slots[k] == active {
                    assert(slots@[k as int] == active);
                    assert(slots@.contains(active));
                    return true;
                }
                k = k + 1;
            }
            false
        },
    }
}

/// The heartbeat line of the status bar.
pub open spec fn heartbeat_line(m: crate::gui_model::ModelView) -> Seq<char> {
    if !m.is_connected {
        translation(m.lang, "heartbeat_idle"@)
    } else if m.heartbeat_failures > 0 {
        translation(m.lang, "heartbeat_missed"@) + " ("@ + decimal(m.heartbeat_failures as nat)
            + "/3)"@
    } else {
        match m.last_heartbeat_at {
            Some(at) => translation(m.lang, "heartbeat_last_ok"@) + " "@ + at,
            None => translation(m.lang, "heartbeat_starting"@),
        }
    }
}

pub fn heartbeat_summary(model: &AppModel) -> (r: String)
    ensures
        r@ == heartbeat_line(model@),
{
    if !model.is_connected {
        return text(model.lang.t("heartbeat_idle"));
    }
    if model.heartbeat_failures > 0 {
        let mut out = text(model.lang.t("heartbeat_missed"));
        out.append(" (");
        append_decimal(&mut out, model.heartbeat_failures as u64);
        out.append("/3)");
        assert(out@ =~= heartbeat_line(model@));
        return out;
    }
    match &model.last_heartbeat_at {
        Some(at) => {
            let mut out = text(model.lang.t("heartbeat_last_ok"));
            out.append(" ");
            out.append(at.as_str());
            out
        },
        None => text(model.lang.t("heartbeat_starting")),
    }
}

} // verus!
