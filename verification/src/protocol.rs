use vstd::prelude::*;

use crate::json::{
    entries_view, entry_value, find_entry, lookup, ArgView, JsonEntry, JsonNumber,
    JsonValue, NumberView,
};
use crate::json_codec::json_parse_of;
use crate::text::{text, text_eq};

verus! {

/// Protocol version every request and response carries.
pub const PROTOCOL_VERSION: &'static str = "YundroneBT-V2.1.0";

pub const CODE_OK: &'static str = "OK";
pub const CODE_ACCEPTED: &'static str = "ACCEPTED";
pub const CODE_BAD_JSON: &'static str = "BAD_JSON";
pub const CODE_BAD_REQUEST: &'static str = "BAD_REQUEST";
pub const CODE_ACK_BAD_REQUEST: &'static str = "ACK_BAD_REQUEST";
pub const CODE_UNKNOWN_COMMAND: &'static str = "UNKNOWN_COMMAND";
pub const CODE_BUSY: &'static str = "BUSY";
pub const CODE_IN_PROGRESS: &'static str = "IN_PROGRESS";
pub const CODE_PARTIAL_SUCCESS: &'static str = "PARTIAL_SUCCESS";
pub const CODE_PROTECTED_PROFILE: &'static str = "PROTECTED_PROFILE";
pub const CODE_PROVISION_SUCCESS: &'static str = "PROVISION_SUCCESS";
pub const CODE_PROVISION_FAIL: &'static str = "PROVISION_FAIL";
pub const CODE_INTERNAL_ERROR: &'static str = "INTERNAL_ERROR";
pub const CODE_REQUEST_EXPIRED: &'static str = "REQUEST_EXPIRED";
pub const CODE_DELIVERY_TIMEOUT: &'static str = "DELIVERY_TIMEOUT";
pub const CODE_TIMEOUT: &'static str = "TIMEOUT";

pub const CMD_LINK_ACK: &'static str = "link.ack";
pub const CMD_LINK_HEARTBEAT: &'static str = "link.heartbeat";
pub const CMD_SYSTEM_STATUS: &'static str = "system.status";
pub const CMD_SYSTEM_CAPABILITIES: &'static str = "system.capabilities";
pub const CMD_WIFI_SCAN: &'static str = "wifi.scan";
pub const CMD_WIFI_PROVISION: &'static str = "wifi.provision";
pub const CMD_WIFI_PROFILES_LIST: &'static str = "wifi.profiles.list";
pub const CMD_WIFI_PROFILES_DELETE: &'static str = "wifi.profiles.delete";

/// Largest JSON payload one legacy BLE notification may carry.
pub const MAX_BLE_PAYLOAD_BYTES: usize = 360;

/// Device name prefix used when none is configured.
pub const DEFAULT_DEVICE_NAME: &'static str = "yundrone";

#[derive(Debug, Clone, Copy, PartialEq, Eq, Structural)]
pub enum ResponsePhase {
    Accepted,
    Progress,
    Result,
}

impl ResponsePhase {
    pub open spec fn wire_name(self) -> Seq<char> {
        match self {
            ResponsePhase::Accepted => "accepted"@,
            ResponsePhase::Progress => "progress"@,
            ResponsePhase::Result => "result"@,
        }
    }

    pub fn as_str(&self) -> (r: &'static str)
        ensures
            r@ == self.wire_name(),
    {
        match self {
            ResponsePhase::Accepted => "accepted",
            ResponsePhase::Progress => "progress",
            ResponsePhase::Result => "result",
        }
    }
}

#[derive(Debug, Clone, PartialEq, Eq)]
pub enum ProtocolError {
    BadJson(String),
    BadRequest(String),
}

pub enum ProtocolErrorView {
    BadJson(Seq<char>),
    BadRequest(Seq<char>),
}

impl View for ProtocolError {
    type V = ProtocolErrorView;

    open spec fn view(&self) -> ProtocolErrorView {
        match self {
            ProtocolError::BadJson(m) => ProtocolErrorView::BadJson(m@),
            ProtocolError::BadRequest(m) => ProtocolErrorView::BadRequest(m@),
        }
    }
}

/// How a protocol error reads: `"Bad JSON: {0}"` or `"Bad request: {0}"`.
pub open spec fn protocol_error_text(e: ProtocolErrorView) -> Seq<char> {
    match e {
        ProtocolErrorView::BadJson(m) => "Bad JSON: "@ + m,
        ProtocolErrorView::BadRequest(m) => "Bad request: "@ + m,
    }
}

impl ProtocolError {
    /// The error's message.
    pub fn to_text(&self) -> (r: String)
        ensures
            r@ == protocol_error_text(self@),
    {
        proof {
            reveal_strlit("");
        }
        match self {
            ProtocolError::BadJson(m) => message("Bad JSON: ", m.as_str(), ""),
            ProtocolError::BadRequest(m) => message("Bad request: ", m.as_str(), ""),
        }
    }
}

#[derive(Debug, Clone, Copy, PartialEq, Eq, Structural)]
pub enum AckType {
    Chunk,
    Event,
}

impl AckType {
    pub open spec fn wire_name(self) -> Seq<char> {
        match self {
            AckType::Chunk => "chunk"@,
            AckType::Event => "event"@,
        }
    }

    pub fn as_str(&self) -> (r: &'static str)
        ensures
            r@ == self.wire_name(),
    {
        match self {
            AckType::Chunk => "chunk",
            AckType::Event => "event",
        }
    }

    pub fn from_str(value: &str) -> (r: Result<AckType, ProtocolError>)
        ensures
            result_view(r) == ack_type_from_wire(value@),
    {
        proof {
            reveal_strlit("chunk");
            reveal_strlit("event");
        }
        if text_eq(value, "chunk") {
            Ok(AckType::Chunk)
        } else if text_eq(value, "event") {
            Ok(AckType::Event)
        } else {
            Err(ProtocolError::BadRequest(text("argument 'ack_type' must be 'chunk' or 'event'")))
        }
    }
}

pub open spec fn result_view<T>(r: Result<T, ProtocolError>) -> Result<T, ProtocolErrorView> {
    match r {
        Ok(v) => Ok(v),
        Err(e) => Err(e@),
    }
}

pub open spec fn ack_type_from_wire(value: Seq<char>) -> Result<AckType, ProtocolErrorView> {
    if value == "chunk"@ {
        Ok(AckType::Chunk)
    } else if value == "event"@ {
        Ok(AckType::Event)
    } else {
        Err(ProtocolErrorView::BadRequest("argument 'ack_type' must be 'chunk' or 'event'"@))
    }
}

#[derive(Debug, Clone, Copy, PartialEq, Eq)]
pub struct LinkAckArgs {
    pub ack_type: AckType,
    pub response_seq: u64,
    pub chunk_index: Option<usize>,
}

#[derive(Debug, Clone, PartialEq, Eq)]
pub enum CommandPayload {
    LinkAck(LinkAckArgs),
    LinkHeartbeat,
    SystemStatus,
    SystemCapabilities,
    WifiScan { ifname: Option<String> },
    WifiProvision { ssid: String, pwd: Option<String> },
    WifiProfilesList,
    WifiProfilesDelete { uuids: Vec<String>, force: bool },
}

/// Mathematical content of a command payload.
pub enum PayloadView {
    LinkAck(LinkAckArgs),
    LinkHeartbeat,
    SystemStatus,
    SystemCapabilities,
    WifiScan { ifname: Option<Seq<char>> },
    WifiProvision { ssid: Seq<char>, pwd: Option<Seq<char>> },
    WifiProfilesList,
    WifiProfilesDelete { uuids: Seq<Seq<char>>, force: bool },
}

pub open spec fn opt_text(o: Option<String>) -> Option<Seq<char>> {
    match o {
        Some(s) => Some(s@),
        None => None,
    }
}

impl View for CommandPayload {
    type V = PayloadView;

    open spec fn view(&self) -> PayloadView {
        match self {
            CommandPayload::LinkAck(a) => PayloadView::LinkAck(*a),
            CommandPayload::LinkHeartbeat => PayloadView::LinkHeartbeat,
            CommandPayload::SystemStatus => PayloadView::SystemStatus,
            CommandPayload::SystemCapabilities => PayloadView::SystemCapabilities,
            CommandPayload::WifiScan { ifname } => PayloadView::WifiScan { ifname: opt_text(*ifname) },
            CommandPayload::WifiProvision { ssid, pwd } => PayloadView::WifiProvision {
                ssid: ssid@,
                pwd: opt_text(*pwd),
            },
            CommandPayload::WifiProfilesList => PayloadView::WifiProfilesList,
            CommandPayload::WifiProfilesDelete { uuids, force } => PayloadView::WifiProfilesDelete {
                uuids: uuids@.map_values(|u: String| u@),
                force: *force,
            },
        }
    }
}

/// The command name of a payload.
pub open spec fn command_name_of(p: PayloadView) -> Seq<char> {
    match p {
        PayloadView::LinkAck(_) => "link.ack"@,
        PayloadView::LinkHeartbeat => "link.heartbeat"@,
        PayloadView::SystemStatus => "system.status"@,
        PayloadView::SystemCapabilities => "system.capabilities"@,
        PayloadView::WifiScan { .. } => "wifi.scan"@,
        PayloadView::WifiProvision { .. } => "wifi.provision"@,
        PayloadView::WifiProfilesList => "wifi.profiles.list"@,
        PayloadView::WifiProfilesDelete { .. } => "wifi.profiles.delete"@,
    }
}

/// The argument object of a payload, member by member in insertion order.
pub open spec fn args_of(p: PayloadView) -> Seq<(Seq<char>, ArgView)> {
    match p {
        PayloadView::LinkAck(a) => {
            let base = seq![
                ("ack_type"@, ArgView::Str(a.ack_type.wire_name())),
                ("response_seq"@, ArgView::Number(NumberView::Unsigned(a.response_seq))),
            ];
            match a.chunk_index {
                Some(i) => base.push(
                    ("chunk_index"@, ArgView::Number(NumberView::Unsigned(i as u64))),
                ),
                None => base,
            }
        },
        PayloadView::WifiScan { ifname } => match ifname {
            Some(n) => seq![("ifname"@, ArgView::Str(n))],
            None => Seq::empty(),
        },
        PayloadView::WifiProvision { ssid, pwd } => {
            let base = seq![("ssid"@, ArgView::Str(ssid))];
            match pwd {
                Some(p) => base.push(("pwd"@, ArgView::Str(p))),
                None => base,
            }
        },
        PayloadView::WifiProfilesDelete { uuids, force } => {
            let base = seq![
                ("uuids"@, ArgView::Array(uuids.map_values(|u: Seq<char>| Some(u)))),
            ];
            if force {
                base.push(("force"@, ArgView::Bool(true)))
            } else {
                base
            }
        },
        _ => Seq::empty(),
    }
}

pub open spec fn arg_error(key: Seq<char>, tail: Seq<char>) -> ProtocolErrorView {
    ProtocolErrorView::BadRequest("argument '"@ + key + tail)
}

pub open spec fn missing_arg(key: Seq<char>) -> ProtocolErrorView {
    ProtocolErrorView::BadRequest("missing required argument '"@ + key + "'"@)
}

pub open spec fn optional_string_result(args: Seq<(Seq<char>, ArgView)>, key: Seq<char>) -> Result<
    Option<Seq<char>>,
    ProtocolErrorView,
> {
    match lookup(args, key) {
        None => Ok(None),
        Some(ArgView::Str(s)) => Ok(Some(s)),
        Some(_) => Err(arg_error(key, "' must be a string"@)),
    }
}

pub open spec fn required_string_result(args: Seq<(Seq<char>, ArgView)>, key: Seq<char>) -> Result<
    Seq<char>,
    ProtocolErrorView,
> {
    match optional_string_result(args, key) {
        Ok(Some(s)) => Ok(s),
        Ok(None) => Err(missing_arg(key)),
        Err(e) => Err(e),
    }
}

pub open spec fn optional_bool_result(args: Seq<(Seq<char>, ArgView)>, key: Seq<char>) -> Result<
    Option<bool>,
    ProtocolErrorView,
> {
    match lookup(args, key) {
        None => Ok(None),
        Some(ArgView::Bool(b)) => Ok(Some(b)),
        Some(_) => Err(arg_error(key, "' must be a boolean"@)),
    }
}

pub open spec fn optional_usize_result(args: Seq<(Seq<char>, ArgView)>, key: Seq<char>) -> Result<
    Option<usize>,
    ProtocolErrorView,
> {
    match lookup(args, key) {
        None => Ok(None),
        Some(ArgView::Number(NumberView::Unsigned(n))) => if n <= usize::MAX {
            Ok(Some(n as usize))
        } else {
            Err(arg_error(key, "' must be a positive integer"@))
        },
        Some(ArgView::Number(_)) => Err(arg_error(key, "' must be a positive integer"@)),
        Some(_) => Err(arg_error(key, "' must be an integer"@)),
    }
}

pub open spec fn required_u64_result(args: Seq<(Seq<char>, ArgView)>, key: Seq<char>) -> Result<
    u64,
    ProtocolErrorView,
> {
    match lookup(args, key) {
        Some(ArgView::Number(NumberView::Unsigned(n))) => Ok(n),
        Some(_) => Err(arg_error(key, "' must be an integer"@)),
        None => Err(missing_arg(key)),
    }
}

pub open spec fn all_texts(items: Seq<Option<Seq<char>>>) -> bool {
    forall|i: int| 0 <= i < items.len() ==> #[trigger] items[i] is Some
}

pub open spec fn required_string_array_result(
    args: Seq<(Seq<char>, ArgView)>,
    key: Seq<char>,
) -> Result<Seq<Seq<char>>, ProtocolErrorView> {
    match lookup(args, key) {
        Some(ArgView::Array(items)) => if all_texts(items) {
            Ok(items.map_values(|x: Option<Seq<char>>| x->Some_0))
        } else {
            Err(arg_error(key, "' must be an array of strings"@))
        },
        Some(_) => Err(arg_error(key, "' must be an array of strings"@)),
        None => Err(missing_arg(key)),
    }
}

pub open spec fn empty_args_result(cmd: Seq<char>, args: Seq<(Seq<char>, ArgView)>) -> Result<
    (),
    ProtocolErrorView,
> {
    if args.len() == 0 {
        Ok(())
    } else {
        Err(ProtocolErrorView::BadRequest("command '"@ + cmd + "' does not accept args"@))
    }
}

pub open spec fn link_ack_result(args: Seq<(Seq<char>, ArgView)>) -> Result<
    LinkAckArgs,
    ProtocolErrorView,
> {
    match required_string_result(args, "ack_type"@) {
        Err(e) => Err(e),
        Ok(name) => match ack_type_from_wire(name) {
            Err(e) => Err(e),
            Ok(ack_type) => match required_u64_result(args, "response_seq"@) {
                Err(e) => Err(e),
                Ok(response_seq) => match optional_usize_result(args, "chunk_index"@) {
                    Err(e) => Err(e),
                    Ok(chunk_index) => if ack_type == AckType::Chunk && chunk_index == Some(
                        0usize,
                    ) {
                        Err(
                            ProtocolErrorView::BadRequest(
                                "argument 'chunk_index' must be greater than 0"@,
                            ),
                        )
                    } else if ack_type == AckType::Chunk && chunk_index is None {
                        Err(
                            ProtocolErrorView::BadRequest(
                                "argument 'chunk_index' is required for chunk ACK"@,
                            ),
                        )
                    } else {
                        Ok(LinkAckArgs { ack_type, response_seq, chunk_index })
                    },
                },
            },
        },
    }
}

/// The typed payload a command name and argument object stand for, or why they are refused.
pub open spec fn payload_from_wire(cmd: Seq<char>, args: Seq<(Seq<char>, ArgView)>) -> Result<
    PayloadView,
    ProtocolErrorView,
> {
    if cmd == "link.ack"@ {
        match link_ack_result(args) {
            Ok(a) => Ok(PayloadView::LinkAck(a)),
            Err(e) => Err(e),
        }
    } else if cmd == "link.heartbeat"@ {
        match empty_args_result(cmd, args) {
            Ok(_) => Ok(PayloadView::LinkHeartbeat),
            Err(e) => Err(e),
        }
    } else if cmd == "system.status"@ {
        match empty_args_result(cmd, args) {
            Ok(_) => Ok(PayloadView::SystemStatus),
            Err(e) => Err(e),
        }
    } else if cmd == "system.capabilities"@ {
        match empty_args_result(cmd, args) {
            Ok(_) => Ok(PayloadView::SystemCapabilities),
            Err(e) => Err(e),
        }
    } else if cmd == "wifi.scan"@ {
        match optional_string_result(args, "ifname"@) {
            Ok(ifname) => Ok(PayloadView::WifiScan { ifname }),
            Err(e) => Err(e),
        }
    } else if cmd == "wifi.provision"@ {
        match required_string_result(args, "ssid"@) {
            Err(e) => Err(e),
            Ok(ssid) => match optional_string_result(args, "pwd"@) {
                Ok(pwd) => Ok(PayloadView::WifiProvision { ssid, pwd }),
                Err(e) => Err(e),
            },
        }
    } else if cmd == "wifi.profiles.list"@ {
        match empty_args_result(cmd, args) {
            Ok(_) => Ok(PayloadView::WifiProfilesList),
            Err(e) => Err(e),
        }
    } else if cmd == "wifi.profiles.delete"@ {
        match required_string_array_result(args, "uuids"@) {
            Err(e) => Err(e),
            Ok(uuids) => match optional_bool_result(args, "force"@) {
                Ok(force) => Ok(
                    PayloadView::WifiProfilesDelete {
                        uuids,
                        force: match force {
                            Some(b) => b,
                            None => false,
                        },
                    },
                ),
                Err(e) => Err(e),
            },
        }
    } else {
        Err(ProtocolErrorView::BadRequest("unknown command: "@ + cmd))
    }
}

pub open spec fn payload_result_view(r: Result<CommandPayload, ProtocolError>) -> Result<
    PayloadView,
    ProtocolErrorView,
> {
    match r {
        Ok(p) => Ok(p@),
        Err(e) => Err(e@),
    }
}

/// `prefix` + `middle` + `suffix` as a fresh string.
fn message(prefix: &str, middle: &str, suffix: &str) -> (r: String)
    ensures
        r@ == prefix@ + middle@ + suffix@,
{
    let mut out = text(prefix);
    out.append(middle);
    out.append(suffix);
    out
}

fn clone_text(s: &String) -> (r: String)
    ensures
        r@ == s@,
{
    s.clone()
}

fn optional_string_arg(args: &Vec<JsonEntry>, key: &str) -> (r: Result<
    Option<String>,
    ProtocolError,
>)
    ensures
        match r {
            Ok(o) => optional_string_result(entries_view(args@), key@) == Ok::<
                Option<Seq<char>>,
                ProtocolErrorView,
            >(opt_text(o)),
            Err(e) => optional_string_result(entries_view(args@), key@) == Err::<
                Option<Seq<char>>,
                ProtocolErrorView,
            >(e@),
        },
{
    proof {
        reveal_strlit("argument '");
        reveal_strlit("' must be a string");
    }
    match find_entry(args, key) {
        None => Ok(None),
        Some(i) => match &args[i].value {
            JsonValue::String(value) => Ok(Some(clone_text(value))),
            _ => Err(ProtocolError::BadRequest(message("argument '", key, "' must be a string"))),
        },
    }
}

fn required_string_arg(args: &Vec<JsonEntry>, key: &str) -> (r: Result<String, ProtocolError>)
    ensures
        match r {
            Ok(s) => required_string_result(entries_view(args@), key@) == Ok::<
                Seq<char>,
                ProtocolErrorView,
            >(s@),
            Err(e) => required_string_result(entries_view(args@), key@) == Err::<
                Seq<char>,
                ProtocolErrorView,
            >(e@),
        },
{
    match optional_string_arg(args, key) {
        Ok(Some(s)) => Ok(s),
        Ok(None) => Err(
            ProtocolError::BadRequest(message("missing required argument '", key, "'")),
        ),
        Err(e) => Err(e),
    }
}

fn optional_bool_arg(args: &Vec<JsonEntry>, key: &str) -> (r: Result<Option<bool>, ProtocolError>)
    ensures
        result_view(r) == optional_bool_result(entries_view(args@), key@),
{
    match find_entry(args, key) {
        None => Ok(None),
        Some(i) => match &args[i].value {
            JsonValue::Bool(value) => Ok(Some(*value)),
            _ => Err(ProtocolError::BadRequest(message("argument '", key, "' must be a boolean"))),
        },
    }
}

fn optional_usize_arg(args: &Vec<JsonEntry>, key: &str) -> (r: Result<Option<usize>, ProtocolError>)
    ensures
        result_view(r) == optional_usize_result(entries_view(args@), key@),
{
    match find_entry(args, key) {
        None => Ok(None),
        Some(i) => match &args[i].value {
            JsonValue::Number(JsonNumber::Unsigned(n)) => {
                if *n <= usize::MAX as u64 {
                    Ok(Some(*n as usize))
                } else {
                    Err(
                        ProtocolError::BadRequest(
                            message("argument '", key, "' must be a positive integer"),
                        ),
                    )
                }
            },
            JsonValue::Number(_) => Err(
                ProtocolError::BadRequest(
                    message("argument '", key, "' must be a positive integer"),
                ),
            ),
            _ => Err(ProtocolError::BadRequest(message("argument '", key, "' must be an integer"))),
        },
    }
}

fn required_u64_arg(args: &Vec<JsonEntry>, key: &str) -> (r: Result<u64, ProtocolError>)
    ensures
        result_view(r) == required_u64_result(entries_view(args@), key@),
{
    match find_entry(args, key) {
        Some(i) => match &args[i].value {
            JsonValue::Number(JsonNumber::Unsigned(n)) => Ok(*n),
            _ => Err(ProtocolError::BadRequest(message("argument '", key, "' must be an integer"))),
        },
        None => Err(ProtocolError::BadRequest(message("missing required argument '", key, "'"))),
    }
}

fn expect_empty_args(cmd: &str, args: &Vec<JsonEntry>) -> (r: Result<(), ProtocolError>)
    ensures
        result_view(r) == empty_args_result(cmd@, entries_view(args@)),
{
    if args.len() == 0 {
        Ok(())
    } else {
        Err(ProtocolError::BadRequest(message("command '", cmd, "' does not accept args")))
    }
}

fn required_string_array_arg(args: &Vec<JsonEntry>, key: &str) -> (r: Result<
    Vec<String>,
    ProtocolError,
>)
    ensures
        match r {
            Ok(v) => required_string_array_result(entries_view(args@), key@) == Ok::<
                Seq<Seq<char>>,
                ProtocolErrorView,
            >(v@.map_values(|u: String| u@)),
            Err(e) => required_string_array_result(entries_view(args@), key@) == Err::<
                Seq<Seq<char>>,
                ProtocolErrorView,
            >(e@),
        },
{
    match find_entry(args, key) {
        Some(i) => match &args[i].value {
            JsonValue::Array(items) => {
                let ghost views = items@.map_values(|x: JsonValue| crate::json::element_text(x));
                let mut out: Vec<String> = Vec::new();
                let mut j: usize = 0;
                #[verifier::loop_isolation(false)]
                while j < items.len()
                    invariant
                        j <= items@.len(),
                        views == items@.map_values(|x: JsonValue| crate::json::element_text(x)),
                        out@.len() == j,
                        forall|k: int| 0 <= k < j ==> #[trigger] views[k] is Some,
                        forall|k: int| 0 <= k < j ==> #[trigger] out@[k]@ == views[k]->Some_0,
                    decreases items@.len() - j,
                {
                    match &items[j] {
                        JsonValue::String(value) => out.push(clone_text(value)),
                        _ => {
                            assert(views[j as int] == crate::json::element_text(items@[j as int]));
                            assert(!crate::protocol::all_texts(views));
                            return Err(
                                ProtocolError::BadRequest(
                                    message("argument '", key, "' must be an array of strings"),
                                ),
                            );
                        },
                    }
                    j = j + 1;
                }
                assert(out@.map_values(|u: String| u@) =~= views.map_values(
                    |x: Option<Seq<char>>| x->Some_0,
                ));
                Ok(out)
            },
            _ => Err(
                ProtocolError::BadRequest(
                    message("argument '", key, "' must be an array of strings"),
                ),
            ),
        },
        None => Err(ProtocolError::BadRequest(message("missing required argument '", key, "'"))),
    }
}

fn parse_link_ack_args(args: &Vec<JsonEntry>) -> (r: Result<LinkAckArgs, ProtocolError>)
    ensures
        result_view(r) == link_ack_result(entries_view(args@)),
{
    proof {
        reveal_strlit("ack_type");
        reveal_strlit("response_seq");
        reveal_strlit("chunk_index");
    }
    let name = match required_string_arg(args, "ack_type") {
        Ok(name) => name,
        Err(e) => return Err(e),
    };
    let ack_type = match AckType::from_str(name.as_str()) {
        Ok(t) => t,
        Err(e) => return Err(e),
    };
    let response_seq = match required_u64_arg(args, "response_seq") {
        Ok(n) => n,
        Err(e) => return Err(e),
    };
    let chunk_index = match optional_usize_arg(args, "chunk_index") {
        Ok(c) => c,
        Err(e) => return Err(e),
    };
    if ack_type == AckType::Chunk {
        match chunk_index {
            Some(value) => {
                if value == 0 {
                    return Err(
                        ProtocolError::BadRequest(
                            text("argument 'chunk_index' must be greater than 0"),
                        ),
                    );
                }
            },
            None => {
                return Err(
                    ProtocolError::BadRequest(
                        text("argument 'chunk_index' is required for chunk ACK"),
                    ),
                );
            },
        }
    }
    Ok(LinkAckArgs { ack_type, response_seq, chunk_index })
}

impl CommandPayload {
    pub fn command_name(&self) -> (r: &'static str)
        ensures
            r@ == command_name_of(self@),
    {
        match self {
            CommandPayload::LinkAck(_) => "link.ack",
            CommandPayload::LinkHeartbeat => "link.heartbeat",
            CommandPayload::SystemStatus => "system.status",
            CommandPayload::SystemCapabilities => "system.capabilities",
            CommandPayload::WifiScan { .. } => "wifi.scan",
            CommandPayload::WifiProvision { .. } => "wifi.provision",
            CommandPayload::WifiProfilesList => "wifi.profiles.list",
            CommandPayload::WifiProfilesDelete { .. } => "wifi.profiles.delete",
        }
    }


    /// The argument object of the payload, member by member in insertion order.
    pub fn to_args_map(&self) -> (r: Vec<JsonEntry>)
        ensures
            entries_view(r@) == args_of(self@),
    {
        let mut args: Vec<JsonEntry> = Vec::new();
        match self {
            CommandPayload::LinkHeartbeat | CommandPayload::SystemStatus
            | CommandPayload::SystemCapabilities | CommandPayload::WifiProfilesList => {},
            CommandPayload::LinkAck(ack) => {
                args.push(
                    JsonEntry {
                        key: text("ack_type"),
                        value: JsonValue::String(text(ack.ack_type.as_str())),
                    },
                );
                args.push(
                    JsonEntry {
                        key: text("response_seq"),
                        value: JsonValue::Number(JsonNumber::Unsigned(ack.response_seq)),
                    },
                );
                if let Some(chunk_index) = ack.chunk_index {
                    args.push(
                        JsonEntry {
                            key: text("chunk_index"),
                            value: JsonValue::Number(JsonNumber::Unsigned(chunk_index as u64)),
                        },
                    );
                }
            },
            CommandPayload::WifiScan { ifname } => {
                if let Some(ifname) = ifname {
                    args.push(
                        JsonEntry { key: text("ifname"), value: JsonValue::String(clone_text(ifname)) },
                    );
                }
            },
            CommandPayload::WifiProvision { ssid, pwd } => {
                args.push(JsonEntry { key: text("ssid"), value: JsonValue::String(clone_text(ssid)) });
                if let Some(pwd) = pwd {
                    args.push(JsonEntry { key: text("pwd"), value: JsonValue::String(clone_text(pwd)) });
                }
            },
            CommandPayload::WifiProfilesDelete { uuids, force } => {
                let mut items: Vec<JsonValue> = Vec::new();
                let mut i: usize = 0;
                while i < uuids.len()
                    invariant
                        i <= uuids@.len(),
                        items@.len() == i,
                        forall|k: int|
                            0 <= k < i ==> #[trigger] crate::json::element_text(items@[k]) == Some(
                                uuids@[k]@,
                            ),
                    decreases uuids@.len() - i,
                {
                    items.push(JsonValue::String(clone_text(&uuids[i])));
                    i = i + 1;
                }
                assert(items@.map_values(|x: JsonValue| crate::json::element_text(x))
                    =~= uuids@.map_values(|u: String| u@).map_values(|u: Seq<char>| Some(u)));
                args.push(JsonEntry { key: text("uuids"), value: JsonValue::Array(items) });
                if *force {
                    args.push(JsonEntry { key: text("force"), value: JsonValue::Bool(true) });
                }
            },
        }
        assert(entries_view(args@) =~= args_of(self@));
        args
    }

    /// Reads a typed payload from a command name and its argument object.
    pub fn from_wire(cmd: &str, args: &Vec<JsonEntry>) -> (r: Result<CommandPayload, ProtocolError>)
        ensures
            payload_result_view(r) == payload_from_wire(cmd@, entries_view(args@)),
    {
        proof {
            reveal_strlit("link.ack");
            reveal_strlit("link.heartbeat");
            reveal_strlit("system.status");
            reveal_strlit("system.capabilities");
            reveal_strlit("wifi.scan");
            reveal_strlit("wifi.provision");
            reveal_strlit("wifi.profiles.list");
            reveal_strlit("wifi.profiles.delete");
            reveal_strlit("ifname");
            reveal_strlit("ssid");
            reveal_strlit("pwd");
            reveal_strlit("uuids");
            reveal_strlit("force");
        }
        if text_eq(cmd, "link.ack") {
            match parse_link_ack_args(args) {
                Ok(a) => Ok(CommandPayload::LinkAck(a)),
                Err(e) => Err(e),
            }
        } else if text_eq(cmd, "link.heartbeat") {
            match expect_empty_args(cmd, args) {
                Ok(_) => Ok(CommandPayload::LinkHeartbeat),
                Err(e) => Err(e),
            }
        } else if text_eq(cmd, "system.status") {
            match expect_empty_args(cmd, args) {
                Ok(_) => Ok(CommandPayload::SystemStatus),
                Err(e) => Err(e),
            }
        } else if text_eq(cmd, "system.capabilities") {
            match expect_empty_args(cmd, args) {
                Ok(_) => Ok(CommandPayload::SystemCapabilities),
                Err(e) => Err(e),
            }
        } else if text_eq(cmd, "wifi.scan") {
            match optional_string_arg(args, "ifname") {
                Ok(ifname) => Ok(CommandPayload::WifiScan { ifname }),
                Err(e) => Err(e),
            }
        } else if text_eq(cmd, "wifi.provision") {
            let ssid = match required_string_arg(args, "ssid") {
                Ok(s) => s,
                Err(e) => return Err(e),
            };
            match optional_string_arg(args, "pwd") {
                Ok(pwd) => Ok(CommandPayload::WifiProvision { ssid, pwd }),
                Err(e) => Err(e),
            }
        } else if text_eq(cmd, "wifi.profiles.list") {
            match expect_empty_args(cmd, args) {
                Ok(_) => Ok(CommandPayload::WifiProfilesList),
                Err(e) => Err(e),
            }
        } else if text_eq(cmd, "wifi.profiles.delete") {
            let uuids = match required_string_array_arg(args, "uuids") {
                Ok(u) => u,
                Err(e) => return Err(e),
            };
            match optional_bool_arg(args, "force") {
                Ok(force) => Ok(
                    CommandPayload::WifiProfilesDelete {
                        uuids,
                        force: match force {
                            Some(b) => b,
                            None => false,
                        },
                    },
                ),
                Err(e) => Err(e),
            }
        } else {
            proof {
                reveal_strlit("");
            }
            let msg = message("unknown command: ", cmd, "");
            assert(msg@ =~= "unknown command: "@ + cmd@);
            Err(ProtocolError::BadRequest(msg))
        }
    }
}


#[derive(Debug, Clone, PartialEq, Eq)]
pub struct CommandRequest {
    pub id: String,
    pub payload: CommandPayload,
    pub v: String,
}

impl CommandRequest {
    /// A request for `payload` under identifier `id`, at the current protocol version.
    pub fn new(id: String, payload: CommandPayload) -> (r: CommandRequest)
        ensures
            r.id@ == id@,
            r.payload == payload,
            r.v@ == PROTOCOL_VERSION@,
    {
        CommandRequest { id, payload, v: text(PROTOCOL_VERSION) }
    }
}

/// A request as it travels: command name and argument object.
#[derive(Debug, PartialEq)]
pub struct WireCommandRequest {
    pub id: String,
    pub cmd: String,
    pub args: Vec<JsonEntry>,
    pub v: String,
}

/// The wire form of a request.
pub fn request_to_wire(req: &CommandRequest) -> (w: WireCommandRequest)
    ensures
        w.id@ == req.id@,
        w.cmd@ == command_name_of(req.payload@),
        entries_view(w.args@) == args_of(req.payload@),
        w.v@ == req.v@,
{
    WireCommandRequest {
        id: clone_text(&req.id),
        cmd: text(req.payload.command_name()),
        args: req.payload.to_args_map(),
        v: clone_text(&req.v),
    }
}

/// Reads a request from its wire form: the command and arguments must form a known
/// payload, and the version must be the current one. A bad command or argument is
/// reported before a version mismatch, so that an old client's request can still be
/// answered by the command it asked for.
pub fn request_from_wire(wire: WireCommandRequest) -> (r: Result<CommandRequest, ProtocolError>)
    ensures
        match payload_from_wire(wire.cmd@, entries_view(wire.args@)) {
            Err(e) => (r matches Err(err) && err@ == e),
            Ok(p) => if wire.v@ != PROTOCOL_VERSION@ {
                r matches Err(e) && e@ == ProtocolErrorView::BadRequest(
                    "unsupported protocol version: "@ + wire.v@,
                )
            } else {
                r matches Ok(req) && req.id@ == wire.id@ && req.payload@ == p && req.v@ == wire.v@
            },
        },
{
    let payload = match CommandPayload::from_wire(wire.cmd.as_str(), &wire.args) {
        Ok(p) => p,
        Err(e) => return Err(e),
    };
    if !text_eq(wire.v.as_str(), PROTOCOL_VERSION) {
        proof {
            reveal_strlit("");
        }
        let msg = message("unsupported protocol version: ", wire.v.as_str(), "");
        assert(msg@ =~= "unsupported protocol version: "@ + wire.v@);
        return Err(ProtocolError::BadRequest(msg));
    }
    Ok(CommandRequest { id: wire.id, payload, v: wire.v })
}

#[derive(Debug, PartialEq)]
pub struct CommandResponse {
    pub id: String,
    pub cmd: Option<String>,
    pub phase: ResponsePhase,
    pub seq: u64,
    pub final_flag: bool,
    pub ok: bool,
    pub code: String,
    pub text: String,
    pub data: Option<Vec<JsonEntry>>,
    pub v: String,
}

impl CommandResponse {
    /// A successful final result with code `OK`.
    pub fn ok(id: String, text: String, data: Option<Vec<JsonEntry>>) -> (r: CommandResponse)
        ensures
            r.id@ == id@,
            r.cmd is None,
            r.phase == ResponsePhase::Result,
            r.seq == 1,
            r.final_flag,
            r.ok,
            r.code@ == CODE_OK@,
            r.text@ == text@,
            r.data == data,
            r.v@ == PROTOCOL_VERSION@,
    {
        CommandResponse::result(id, None, true, crate::text::text(CODE_OK), text, data)
    }

    /// A final result.
    pub fn result(
        id: String,
        cmd: Option<String>,
        ok: bool,
        code: String,
        text: String,
        data: Option<Vec<JsonEntry>>,
    ) -> (r: CommandResponse)
        ensures
            r.id@ == id@,
            r.cmd == cmd,
            r.phase == ResponsePhase::Result,
            r.seq == 1,
            r.final_flag,
            r.ok == ok,
            r.code@ == code@,
            r.text@ == text@,
            r.data == data,
            r.v@ == PROTOCOL_VERSION@,
    {
        CommandResponse {
            id,
            cmd,
            phase: ResponsePhase::Result,
            seq: 1,
            final_flag: true,
            ok,
            code,
            text,
            data,
            v: crate::text::text(PROTOCOL_VERSION),
        }
    }

    /// A failed final result without command name or data.
    pub fn error(id: String, code: String, text: String) -> (r: CommandResponse)
        ensures
            r.id@ == id@,
            r.cmd is None,
            r.phase == ResponsePhase::Result,
            r.seq == 1,
            r.final_flag,
            !r.ok,
            r.code@ == code@,
            r.text@ == text@,
            r.data is None,
            r.v@ == PROTOCOL_VERSION@,
    {
        CommandResponse {
            id,
            cmd: None,
            phase: ResponsePhase::Result,
            seq: 1,
            final_flag: true,
            ok: false,
            code,
            text,
            data: None,
            v: crate::text::text(PROTOCOL_VERSION),
        }
    }

    /// The first, non-final event of a long-running command.
    pub fn accepted(id: String, cmd: String, text: String, data: Option<Vec<JsonEntry>>) -> (r:
        CommandResponse)
        ensures
            r.id@ == id@,
            r.cmd == Some(cmd),
            r.phase == ResponsePhase::Accepted,
            r.seq == 1,
            !r.final_flag,
            r.ok,
            r.code@ == CODE_ACCEPTED@,
            r.text@ == text@,
            r.data == data,
            r.v@ == PROTOCOL_VERSION@,
    {
        CommandResponse {
            id,
            cmd: Some(cmd),
            phase: ResponsePhase::Accepted,
            seq: 1,
            final_flag: false,
            ok: true,
            code: crate::text::text(CODE_ACCEPTED),
            text,
            data,
            v: crate::text::text(PROTOCOL_VERSION),
        }
    }

    /// A non-final progress event with sequence number `seq`.
    pub fn progress(
        id: String,
        cmd: String,
        seq: u64,
        text: String,
        data: Option<Vec<JsonEntry>>,
    ) -> (r: CommandResponse)
        ensures
            r.id@ == id@,
            r.cmd == Some(cmd),
            r.phase == ResponsePhase::Progress,
            r.seq == seq,
            !r.final_flag,
            r.ok,
            r.code@ == CODE_IN_PROGRESS@,
            r.text@ == text@,
            r.data == data,
            r.v@ == PROTOCOL_VERSION@,
    {
        CommandResponse {
            id,
            cmd: Some(cmd),
            phase: ResponsePhase::Progress,
            seq,
            final_flag: false,
            ok: true,
            code: crate::text::text(CODE_IN_PROGRESS),
            text,
            data,
            v: crate::text::text(PROTOCOL_VERSION),
        }
    }
}

/// Whether `s` starts with `prefix`.
pub fn starts_with(s: &str, prefix: &str) -> (r: bool)
    ensures
        r == (prefix@.len() <= s@.len() && s@.subrange(0, prefix@.len() as int) == prefix@),
{
    let n = prefix.unicode_len();
    if n > s.unicode_len() {
        return false;
    }
    let mut i: usize = 0;
    while i < n
        invariant
            n == prefix@.len(),
            n <= s@.len(),
            i <= n,
            s@.subrange(0, i as int) == prefix@.subrange(0, i as int),
        decreases n - i,
    {
        if s.get_char(i) != prefix.get_char(i) {
            assert(s@.subrange(0, n as int)[i as int] != prefix@[i as int]);
            return false;
        }
        i = i + 1;
        assert(s@.subrange(0, i as int) =~= prefix@.subrange(0, i as int));
    }
    assert(prefix@.subrange(0, n as int) =~= prefix@);
    true
}

/// The member of an object holding a string, if it has one.
pub open spec fn text_member(entries: Seq<JsonEntry>, key: Seq<char>) -> Option<Seq<char>> {
    match entry_value(entries, key) {
        Some(JsonValue::String(s)) => Some(s@),
        _ => None,
    }
}

/// The code and text of the error response for a refused request.
pub open spec fn error_code_and_text(err: ProtocolErrorView) -> (Seq<char>, Seq<char>) {
    match err {
        ProtocolErrorView::BadRequest(m) => if "unknown command:"@.len() <= m.len() && m.subrange(
            0,
            "unknown command:"@.len() as int,
        ) == "unknown command:"@ {
            (CODE_UNKNOWN_COMMAND@, m)
        } else {
            (CODE_BAD_REQUEST@, m)
        },
        ProtocolErrorView::BadJson(m) => (CODE_BAD_JSON@, m),
    }
}

/// The failed result that answers a refused request, when its identifier can be read
/// back from the parsed request body.
/// `r` is the error response for `value` and `err`: the failure of the request that
/// `value` names by `id` (and `cmd`), or none when `value` names no request.
pub open spec fn error_response_for(value: JsonValue, err: ProtocolError, r: Option<CommandResponse>) -> bool {
        match value {
            JsonValue::Object(entries) => match text_member(entries@, "id"@) {
                Some(id) => (r matches Some(resp) && {
                    &&& resp.id@ == id
                    &&& opt_text(resp.cmd) == text_member(entries@, "cmd"@)
                    &&& resp.phase == ResponsePhase::Result
                    &&& resp.seq == 1
                    &&& resp.final_flag
                    &&& !resp.ok
                    &&& (resp.code@, resp.text@) == error_code_and_text(err@)
                    &&& resp.data is None
                    &&& resp.v@ == PROTOCOL_VERSION@
                }),
                None => r is None,
            },
            _ => r is None,
        }
}

pub fn error_response_from_json(value: &JsonValue, err: &ProtocolError) -> (r: Option<
    CommandResponse,
>)
    ensures
        error_response_for(*value, *err, r),
{
    let entries = match value {
        JsonValue::Object(entries) => entries,
        _ => return None,
    };
    let id = match find_entry(entries, "id") {
        Some(i) => match &entries[i].value {
            JsonValue::String(id) => clone_text(id),
            _ => return None,
        },
        None => return None,
    };
    let cmd = match find_entry(entries, "cmd") {
        Some(i) => match &entries[i].value {
            JsonValue::String(c) => Some(clone_text(c)),
            _ => None,
        },
        None => None,
    };
    let (code, message_text) = match err {
        ProtocolError::BadRequest(m) => {
            if starts_with(m.as_str(), "unknown command:") {
                (text(CODE_UNKNOWN_COMMAND), clone_text(m))
            } else {
                (text(CODE_BAD_REQUEST), clone_text(m))
            }
        },
        ProtocolError::BadJson(m) => (text(CODE_BAD_JSON), clone_text(m)),
    };
    Some(CommandResponse::result(id, cmd, false, code, message_text, None))
}

#[derive(Debug, Clone, Copy, PartialEq, Eq, Structural)]
pub struct ChunkMeta {
    pub index: usize,
    pub total: usize,
}

/// Payloads that the wire schema can carry: a chunk ACK names a positive chunk index.
pub open spec fn wire_representable(p: PayloadView) -> bool {
    match p {
        PayloadView::LinkAck(a) => a.ack_type == AckType::Chunk ==> (a.chunk_index matches Some(
            i,
        ) && i > 0),
        _ => true,
    }
}


/// The command names are pairwise distinct.
pub proof fn lemma_command_names_distinct()
    ensures
        "link.ack"@ != "link.heartbeat"@,
        "link.ack"@ != "system.status"@,
        "link.ack"@ != "system.capabilities"@,
        "link.ack"@ != "wifi.scan"@,
        "link.ack"@ != "wifi.provision"@,
        "link.ack"@ != "wifi.profiles.list"@,
        "link.ack"@ != "wifi.profiles.delete"@,
        "link.heartbeat"@ != "system.status"@,
        "link.heartbeat"@ != "system.capabilities"@,
        "link.heartbeat"@ != "wifi.scan"@,
        "link.heartbeat"@ != "wifi.provision"@,
        "link.heartbeat"@ != "wifi.profiles.list"@,
        "link.heartbeat"@ != "wifi.profiles.delete"@,
        "system.status"@ != "system.capabilities"@,
        "system.status"@ != "wifi.scan"@,
        "system.status"@ != "wifi.provision"@,
        "system.status"@ != "wifi.profiles.list"@,
        "system.status"@ != "wifi.profiles.delete"@,
        "system.capabilities"@ != "wifi.scan"@,
        "system.capabilities"@ != "wifi.provision"@,
        "system.capabilities"@ != "wifi.profiles.list"@,
        "system.capabilities"@ != "wifi.profiles.delete"@,
        "wifi.scan"@ != "wifi.provision"@,
        "wifi.scan"@ != "wifi.profiles.list"@,
        "wifi.scan"@ != "wifi.profiles.delete"@,
        "wifi.provision"@ != "wifi.profiles.list"@,
        "wifi.provision"@ != "wifi.profiles.delete"@,
        "wifi.profiles.list"@ != "wifi.profiles.delete"@,
{
    reveal_strlit("link.ack");
    reveal_strlit("link.heartbeat");
    reveal_strlit("system.status");
    reveal_strlit("system.capabilities");
    reveal_strlit("wifi.scan");
    reveal_strlit("wifi.provision");
    reveal_strlit("wifi.profiles.list");
    reveal_strlit("wifi.profiles.delete");
    assert("wifi.provision"@[0] != "link.heartbeat"@[0]);
    assert("link.ack"@.len() == 8);
    assert("link.heartbeat"@.len() == 14);
    assert("system.status"@.len() == 13);
    assert("system.capabilities"@.len() == 19);
    assert("wifi.scan"@.len() == 9);
    assert("wifi.provision"@.len() == 14);
    assert("wifi.profiles.list"@.len() == 18);
    assert("wifi.profiles.delete"@.len() == 20);
}

proof fn lemma_link_ack_round_trip(a: LinkAckArgs)
    requires
        wire_representable(PayloadView::LinkAck(a)),
    ensures
        link_ack_result(args_of(PayloadView::LinkAck(a))) == Ok::<LinkAckArgs, ProtocolErrorView>(a),
        payload_from_wire("link.ack"@, args_of(PayloadView::LinkAck(a))) == Ok::<
            PayloadView,
            ProtocolErrorView,
        >(PayloadView::LinkAck(a)),
{
    reveal_strlit("ack_type");
    reveal_strlit("response_seq");
    reveal_strlit("chunk_index");
    reveal_strlit("chunk");
    reveal_strlit("event");
    let args = args_of(PayloadView::LinkAck(a));
    assert("event"@[0] != "chunk"@[0]);
    assert(lookup(args, "ack_type"@) == Some(ArgView::Str(a.ack_type.wire_name())));
    assert(lookup(args.drop_first(), "response_seq"@) == Some(
        ArgView::Number(NumberView::Unsigned(a.response_seq)),
    ));
    assert(lookup(args, "response_seq"@) == Some(
        ArgView::Number(NumberView::Unsigned(a.response_seq)),
    ));
    match a.chunk_index {
        Some(i) => {
            assert(lookup(args.drop_first().drop_first(), "chunk_index"@) == Some(
                ArgView::Number(NumberView::Unsigned(i as u64)),
            ));
            assert(lookup(args.drop_first(), "chunk_index"@) == lookup(
                args.drop_first().drop_first(),
                "chunk_index"@,
            ));
            assert(lookup(args, "chunk_index"@) == Some(
                ArgView::Number(NumberView::Unsigned(i as u64)),
            ));
        },
        None => {
            assert(args.drop_first().drop_first().len() == 0);
            assert(lookup(args, "chunk_index"@) is None);
        },
    }
    assert(optional_usize_result(args, "chunk_index"@) == Ok::<Option<usize>, ProtocolErrorView>(
        a.chunk_index,
    ));
}

/// Every typed payload the wire schema can carry reads back from its command name and
/// argument object as itself.
pub proof fn lemma_payload_wire_round_trip(p: PayloadView)
    requires
        wire_representable(p),
    ensures
        payload_from_wire(command_name_of(p), args_of(p)) == Ok::<PayloadView, ProtocolErrorView>(p),
{

    reveal_strlit("ack_type");
    reveal_strlit("response_seq");
    reveal_strlit("chunk_index");
    reveal_strlit("ifname");
    reveal_strlit("ssid");
    reveal_strlit("pwd");
    reveal_strlit("uuids");
    reveal_strlit("force");
    reveal_strlit("chunk");
    reveal_strlit("event");
    lemma_command_names_distinct();
    let args = args_of(p);
    match p {
        PayloadView::LinkAck(a) => {
            lemma_link_ack_round_trip(a);
            assert(p == PayloadView::LinkAck(a));
            assert(command_name_of(p) == "link.ack"@);
            assert(args == args_of(PayloadView::LinkAck(a)));
            assert(payload_from_wire(command_name_of(p), args_of(p)) == Ok::<
                PayloadView,
                ProtocolErrorView,
            >(p));
        },
        PayloadView::WifiScan { ifname } => {
            match ifname {
                Some(n) => {
                    assert(lookup(args, "ifname"@) == Some(ArgView::Str(n)));
                },
                None => {},
            }
            assert(payload_from_wire(command_name_of(p), args_of(p)) == Ok::<
                PayloadView,
                ProtocolErrorView,
            >(p));
        },
        PayloadView::WifiProvision { ssid, pwd } => {
            assert(lookup(args, "ssid"@) == Some(ArgView::Str(ssid)));
            match pwd {
                Some(w) => {
                    assert(lookup(args.drop_first(), "pwd"@) == Some(ArgView::Str(w)));
                    assert(lookup(args, "pwd"@) == Some(ArgView::Str(w)));
                },
                None => {
                    assert(args.drop_first().len() == 0);
                    assert(lookup(args, "pwd"@) is None);
                },
            }
            assert(payload_from_wire(command_name_of(p), args_of(p)) == Ok::<
                PayloadView,
                ProtocolErrorView,
            >(p));
        },
        PayloadView::WifiProfilesDelete { uuids, force } => {
            let items = uuids.map_values(|u: Seq<char>| Some(u));
            assert(lookup(args, "uuids"@) == Some(ArgView::Array(items)));
            assert(all_texts(items));
            assert(items.map_values(|x: Option<Seq<char>>| x->Some_0) =~= uuids);
            assert(args[0].0[0] != "force"@[0]);
            assert(args[0].0 != "force"@);
            assert(lookup(args, "force"@) == lookup(args.drop_first(), "force"@));
            if force {
                assert(lookup(args.drop_first(), "force"@) == Some(ArgView::Bool(true)));
            } else {
                assert(args.drop_first().len() == 0);
            }
            assert(payload_from_wire(command_name_of(p), args_of(p)) == Ok::<
                PayloadView,
                ProtocolErrorView,
            >(p));
        },
        PayloadView::LinkHeartbeat => {
            assert(args.len() == 0);
            assert(command_name_of(p) == "link.heartbeat"@);
            assert(empty_args_result("link.heartbeat"@, args) == Ok::<(), ProtocolErrorView>(()));
            assert(payload_from_wire("link.heartbeat"@, args) == Ok::<PayloadView, ProtocolErrorView>(PayloadView::LinkHeartbeat));
            assert(payload_from_wire(command_name_of(p), args_of(p)) == Ok::<
                PayloadView,
                ProtocolErrorView,
            >(p));
        },
        PayloadView::SystemStatus => {
            assert(args.len() == 0);
            assert(payload_from_wire(command_name_of(p), args_of(p)) == Ok::<
                PayloadView,
                ProtocolErrorView,
            >(p));
        },
        PayloadView::SystemCapabilities => {
            assert(args.len() == 0);
            assert(payload_from_wire(command_name_of(p), args_of(p)) == Ok::<
                PayloadView,
                ProtocolErrorView,
            >(p));
        },
        PayloadView::WifiProfilesList => {
            assert(args.len() == 0);
            assert(payload_from_wire(command_name_of(p), args_of(p)) == Ok::<
                PayloadView,
                ProtocolErrorView,
            >(p));
        },
    }
}

/// The error response to the raw request `raw` that failed with `err`: `None` when `raw`
/// is not JSON or names no request.
pub fn parse_error_response(raw: &[u8], err: &ProtocolError) -> (r: Option<CommandResponse>)
    ensures
        match json_parse_of(raw@) {
            None => r is None,
            Some(v) => error_response_for(v, *err, r),
        },
{
    match crate::json_codec::parse_json(raw) {
        Some(v) => error_response_from_json(&v, err),
        None => None,
    }
}

} // verus!
