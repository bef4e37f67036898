//! The Wake-on-LAN web server: its command line, its settings, the device
//! list it shows, and how it answers a wake request.
use vstd::prelude::*;
use vstd::string::StringExecFns;

use crate::ipv4::ipv4_text;
use crate::network_scanner::NetworkDevice;
use crate::text::opt_string_view;
use crate::wol::{wol_hostname, wol_hostname_payload, wol_ip, wol_ip_payload, wol_mac, wol_mac_payload};

verus! {

/// The command line of the server.
pub struct Flags {
    pub command: Option<Commands>,
}

/// The server's subcommands.
pub enum Commands {
    /// Serve on `ip`:`port`, with the device list in `json_file`.
    Start { ip: String, port: u16, json_file: String },
    /// Stop the server.
    Stop,
}

/// The address the server listens on by default.
pub fn default_ip() -> (r: String)
    ensures
        r@ == "[::]"@,
{
    String::from_str("[::]")
}

/// The port the server listens on by default.
pub const PORT: u16 = 10086;

/// The device list file by default.
pub fn default_json_file() -> (r: String)
    ensures
        r@ == "/var/lib/wol/mac.json"@,
{
    String::from_str("/var/lib/wol/mac.json")
}

/// The settings of a running server: where it listens and where its device
/// list is.
#[derive(Debug, Clone)]
pub struct WOLServer {
    ip: String,
    port: u16,
    json_file: String,
}

impl View for WOLServer {
    type V = (Seq<char>, u16, Seq<char>);

    closed spec fn view(&self) -> (Seq<char>, u16, Seq<char>) {
        (self.ip@, self.port, self.json_file@)
    }
}

impl WOLServer {
    pub fn new(ip: String, port: u16, json_file: String) -> (r: WOLServer)
        ensures
            r@ == (ip@, port, json_file@),
    {
        WOLServer { ip, port, json_file }
    }

    /// The address the server listens on.
    pub fn ip(&self) -> (r: &str)
        ensures
            r@ == self@.0,
    {
        self.ip.as_str()
    }

    /// The port the server listens on.
    pub fn port(&self) -> (r: u16)
        ensures
            r == self@.1,
    {
        self.port
    }

    /// The file that holds the device list.
    pub fn json_file(&self) -> (r: &str)
        ensures
            r@ == self@.2,
    {
        self.json_file.as_str()
    }
}

/// A device as the web page shows it.
#[derive(Debug, Clone)]
pub struct DeviceInfo {
    pub ip: String,
    pub mac: String,
    pub hostname: Option<String>,
}

/// Whether `info` shows `device`: its address as dotted-decimal text, its MAC
/// address and host name as they are.
pub open spec fn shows(info: DeviceInfo, device: NetworkDevice) -> bool {
    &&& info.ip@ == ipv4_text(device.ip)
    &&& info.mac@ == device.mac@
    &&& opt_string_view(info.hostname) == opt_string_view(device.hostname)
}

/// The devices as the web page lists them, in the same order.
pub fn device_infos(devices: &Vec<NetworkDevice>) -> (r: Vec<DeviceInfo>)
    ensures
        r@.len() == devices@.len(),
        forall|i: int| 0 <= i < r@.len() ==> shows(#[trigger] r@[i], devices@[i]),
{
    let mut r: Vec<DeviceInfo> = Vec::new();
    let mut i: usize = 0;
    while i < devices.len()
        invariant
            i <= devices@.len(),
            r@.len() == i,
            forall|k: int| 0 <= k < i ==> shows(#[trigger] r@[k], devices@[k]),
        decreases devices.len() - i,
    {
        let d = &devices[i];
        let info = DeviceInfo {
            ip: d.ip.to_string(),
            mac: d.mac.clone(),
            hostname: match &d.hostname {
                Some(h) => Some(h.clone()),
                None => None,
            },
        };
        r.push(info);
        i += 1;
    }
    r
}

/// A request to wake a device by MAC address, IP address or host name.
#[derive(Debug)]
pub struct WakeRequest {
    pub mac: Option<String>,
    pub ip: Option<String>,
    pub hostname: Option<String>,
}

/// What to broadcast for a wake request, and the answer once it is sent.
#[derive(Debug)]
pub struct WakeAction {
    pub packet: Vec<u8>,
    pub message: String,
}

/// How a wake request fails: it names no device, or the device cannot be
/// woken.
#[derive(Debug, PartialEq, Eq, Structural)]
pub enum WakeError {
    BadRequest,
    InternalServerError,
}

/// How the server answers `req`, given the devices found on the network: the
/// MAC address is used first, then the IP address, then the host name.
pub open spec fn wake_outcome(req: WakeRequest, devices: Seq<NetworkDevice>) -> Result<
    (Seq<u8>, Seq<char>),
    WakeError,
> {
    match req.mac {
        Some(m) => match wol_mac_payload(m@) {
            Ok(p) => Ok((p, "成功发送唤醒包到MAC地址: "@ + m@)),
            Err(_) => Err(WakeError::InternalServerError),
        },
        None => match req.ip {
            Some(ip) => match wol_ip_payload(devices, ip@) {
                Ok(p) => Ok((p, "成功唤醒IP地址: "@ + ip@)),
                Err(_) => Err(WakeError::InternalServerError),
            },
            None => match req.hostname {
                Some(h) => match wol_hostname_payload(devices, h@) {
                    Ok(p) => Ok((p, "成功唤醒主机: "@ + h@)),
                    Err(_) => Err(WakeError::InternalServerError),
                },
                None => Err(WakeError::BadRequest),
            },
        },
    }
}

/// Answers a wake request: the magic packet to broadcast and the message to
/// return once it is sent, or the error status. A device is looked up among
/// those the last scan found, then among those listed in the device file, so
/// that a listed device that is asleep, and so was not found, can be woken.
pub fn wake_device(req: &WakeRequest, scanned: Vec<NetworkDevice>, configured: Vec<NetworkDevice>) -> (r:
    Result<WakeAction, WakeError>)
    ensures
        match r {
            Ok(a) => wake_outcome(*req, scanned@ + configured@) == Ok::<
                (Seq<u8>, Seq<char>),
                WakeError,
            >((a.packet@, a.message@)),
            Err(e) => wake_outcome(*req, scanned@ + configured@) == Err::<
                (Seq<u8>, Seq<char>),
                WakeError,
            >(e),
        },
{
    let ghost known_view = scanned@ + configured@;
    let mut devices = scanned;
    let mut listed = configured;
    devices.append(&mut listed);
    assert(devices@ =~= known_view);
    let devices = &devices;
    if let Some(mac) = &req.mac {
        match wol_mac(mac.as_str()) {
            Ok(packet) => {
                let mut message = String::from_str("成功发送唤醒包到MAC地址: ");
                message.append(mac.as_str());
                Ok(WakeAction { packet, message })
            },
            Err(_) => Err(WakeError::InternalServerError),
        }
    } else if let Some(ip) = &req.ip {
        match wol_ip(devices, ip.as_str()) {
            Ok(packet) => {
                let mut message = String::from_str("成功唤醒IP地址: ");
                message.append(ip.as_str());
                Ok(WakeAction { packet, message })
            },
            Err(_) => Err(WakeError::InternalServerError),
        }
    } else if let Some(hostname) = &req.hostname {
        match wol_hostname(devices, hostname.as_str()) {
            Ok(packet) => {
                let mut message = String::from_str("成功唤醒主机: ");
                message.append(hostname.as_str());
                Ok(WakeAction { packet, message })
            },
            Err(_) => Err(WakeError::InternalServerError),
        }
    } else {
        Err(WakeError::BadRequest)
    }
}

} // verus!
