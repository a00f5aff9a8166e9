use vstd::prelude::*;

use crate::text::text;

verus! {

#[derive(Debug, Clone, PartialEq)]
pub struct CapabilitiesResponseData {
    pub protocol_version: String,
    pub commands: Vec<String>,
    pub features: Vec<String>,
    pub payload_limit: usize,
    pub transport: Option<TransportCapabilities>,
}

#[derive(Debug, Clone, PartialEq)]
pub struct TransportCapabilities {
    pub frame_version: u8,
    pub frame_header_size: usize,
    pub max_frame_payload: usize,
    pub max_inbound_logical_payload: usize,
    pub response_window: usize,
    pub ack_strategy: String,
}

#[derive(Debug, Clone, Copy, PartialEq, Eq, Structural)]
pub struct HeartbeatResponseData {
    pub alive: bool,
}

#[derive(Debug, Clone, Copy, PartialEq, Eq, Structural)]
pub enum StatusInterfaceKind {
    Wifi,
    Ethernet,
    Other,
}

impl StatusInterfaceKind {
    pub open spec fn wire_name(self) -> Seq<char> {
        match self {
            StatusInterfaceKind::Wifi => "wifi"@,
            StatusInterfaceKind::Ethernet => "ethernet"@,
            StatusInterfaceKind::Other => "other"@,
        }
    }

    pub fn as_str(&self) -> (r: &'static str)
        ensures
            r@ == self.wire_name(),
    {
        match self {
            StatusInterfaceKind::Wifi => "wifi",
            StatusInterfaceKind::Ethernet => "ethernet",
            StatusInterfaceKind::Other => "other",
        }
    }
}

#[derive(Debug, Clone, PartialEq)]
pub struct StatusInterfaceIpv4 {
    pub ifname: String,
    pub kind: StatusInterfaceKind,
    pub ipv4: String,
}

impl StatusInterfaceIpv4 {
    /// `"{ifname} [{kind}] -> {ipv4}"`.
    pub open spec fn summary(self) -> Seq<char> {
        self.ifname@ + " ["@ + self.kind.wire_name() + "] -> "@ + self.ipv4@
    }

    pub fn summary_line(&self) -> (r: String)
        ensures
            r@ == self.summary(),
    {
        let mut out = text(self.ifname.as_str());
        out.append(" [");
        out.append(self.kind.as_str());
        out.append("] -> ");
        out.append(self.ipv4.as_str());
        out
    }
}

#[derive(Debug, Clone, PartialEq)]
pub struct StatusResponseData {
    pub device_name: String,
    pub hostname: String,
    pub system: String,
    pub user: String,
    pub network: Option<String>,
    pub ip: Option<String>,
    pub interfaces: Vec<StatusInterfaceIpv4>,
}

#[derive(Debug, Clone, PartialEq)]
pub struct WifiNetwork {
    pub ssid: String,
    pub channel: String,
    pub signal: i32,
}

#[derive(Debug, Clone, PartialEq)]
pub struct WifiScanResponseData {
    pub ifname: Option<String>,
    pub count: u64,
    pub networks: Vec<WifiNetwork>,
}

#[derive(Debug, Clone, Copy, PartialEq, Eq, Structural)]
pub enum ProvisionState {
    Connected,
    Failed,
}

#[derive(Debug, Clone, PartialEq)]
pub struct ProvisionResponseData {
    pub status: ProvisionState,
    pub ssid: String,
    pub ip: Option<String>,
}

#[derive(Debug, Clone, PartialEq)]
pub struct WifiProfile {
    pub uuid: String,
    pub name: String,
    pub ssid: String,
    pub active: bool,
    pub device: Option<String>,
    pub autoconnect: bool,
}

#[derive(Debug, Clone, PartialEq)]
pub struct WifiProfilesResponseData {
    pub profiles: Vec<WifiProfile>,
}

#[derive(Debug, Clone, PartialEq)]
pub struct WifiProfileDeleteItem {
    pub uuid: String,
    pub name: String,
    pub ssid: String,
}

#[derive(Debug, Clone, PartialEq)]
pub struct WifiProfileSkippedItem {
    pub uuid: String,
    pub name: String,
    pub ssid: String,
    pub reason: String,
}

#[derive(Debug, Clone, PartialEq)]
pub struct WifiProfileFailedItem {
    pub uuid: String,
    pub name: String,
    pub ssid: String,
    pub error: String,
}

#[derive(Debug, Clone, PartialEq)]
pub struct WifiProfilesDeleteResponseData {
    pub deleted: Vec<WifiProfileDeleteItem>,
    pub skipped: Vec<WifiProfileSkippedItem>,
    pub failed: Vec<WifiProfileFailedItem>,
}

} // verus!
