//! The IP service's view of this host's interfaces, as it reports them to the
//! server, and when the client publishes them.
use vstd::prelude::*;

pub use crate::ip_manager::{parse_ipv6_addr, parse_mac_addr, parse_net_devices};

use crate::ip_manager::{collect_fields, field_values, LineField};
use crate::text::string_views;

verus! {

/// An interface as the IP service reports it: its name, MAC address and
/// addresses as text.
#[derive(Debug)]
pub struct NetDevice {
    pub device: String,
    pub mac: String,
    pub ips: Vec<String>,
}

/// An interface by the texts it holds.
pub open spec fn net_device_view(d: NetDevice) -> (Seq<char>, Seq<char>, Seq<Seq<char>>) {
    (d.device@, d.mac@, string_views(d.ips@))
}

pub open spec fn net_devices_view(ds: Seq<NetDevice>) -> Seq<(Seq<char>, Seq<char>, Seq<Seq<char>>)> {
    Seq::new(ds.len(), |i: int| net_device_view(ds[i]))
}

/// The IPv4 addresses in the output of `ip addr show`, with their prefix lengths.
pub fn parse_ipv4_addr(ip_addr_show: &str) -> (r: Vec<String>)
    ensures
        string_views(r@) == field_values(ip_addr_show@, LineField::InetWithPrefix),
{
    collect_fields(ip_addr_show, LineField::InetWithPrefix)
}

/// The addresses in the output of `ip addr show`: the IPv4 ones, with their
/// prefix lengths, then the IPv6 ones.
pub fn parse_ip_addr(ip_addr_show: &str) -> (r: Vec<String>)
    ensures
        string_views(r@) == field_values(ip_addr_show@, LineField::InetWithPrefix) + field_values(
            ip_addr_show@,
            LineField::Inet6Address,
        ),
{
    let mut ipv4 = parse_ipv4_addr(ip_addr_show);
    let mut ipv6 = parse_ipv6_addr(ip_addr_show);
    let ghost v4 = ipv4@;
    let ghost v6 = ipv6@;
    let mut ip: Vec<String> = Vec::new();
    ip.append(&mut ipv4);
    ip.append(&mut ipv6);
    assert(ip@ =~= v4 + v6);
    assert(string_views(ip@) =~= string_views(v4) + string_views(v6));
    ip
}

fn same_text(a: &String, b: &String) -> (r: bool)
    ensures
        r == (a@ == b@),
{
    *a == *b
}

fn same_device(a: &NetDevice, b: &NetDevice) -> (r: bool)
    ensures
        r == (net_device_view(*a) == net_device_view(*b)),
{
    if !same_text(&a.device, &b.device) || !same_text(&a.mac, &b.mac) {
        return false;
    }
    if a.ips.len() != b.ips.len() {
        assert(string_views(a.ips@).len() != string_views(b.ips@).len());
        return false;
    }
    let mut i: usize = 0;
    while i < a.ips.len()
        invariant
            i <= a.ips@.len(),
            a.ips@.len() == b.ips@.len(),
            forall|k: int| 0 <= k < i ==> a.ips@[k]@ == b.ips@[k]@,
        decreases a.ips.len() - i,
    {
        if !same_text(&a.ips[i], &b.ips[i]) {
            assert(string_views(a.ips@)[i as int] != string_views(b.ips@)[i as int]);
            return false;
        }
        i += 1;
    }
    assert(string_views(a.ips@) =~= string_views(b.ips@));
    true
}

/// Whether two reports of the interfaces say the same.
pub fn same_devices(a: &Vec<NetDevice>, b: &Vec<NetDevice>) -> (r: bool)
    ensures
        r == (net_devices_view(a@) == net_devices_view(b@)),
{
    if a.len() != b.len() {
        assert(net_devices_view(a@).len() != net_devices_view(b@).len());
        return false;
    }
    let mut i: usize = 0;
    while i < a.len()
        invariant
            i <= a@.len(),
            a@.len() == b@.len(),
            forall|k: int| 0 <= k < i ==> net_device_view(a@[k]) == net_device_view(b@[k]),
        decreases a.len() - i,
    {
        if !same_device(&a[i], &b[i]) {
            assert(net_devices_view(a@)[i as int] != net_devices_view(b@)[i as int]);
            return false;
        }
        i += 1;
    }
    assert(net_devices_view(a@) =~= net_devices_view(b@));
    true
}

/// What the monitor of the IP service does next.
#[derive(Debug, PartialEq, Eq, Structural)]
pub enum MonitorStep {
    /// The client has no connection: connect again.
    Reconnect,
    /// The interfaces changed since they were last published: publish them.
    Publish,
    /// Nothing to do until the next round.
    Wait,
}

/// The monitor's decision in a round: connect first, then publish the
/// interfaces when they differ from those last published.
pub open spec fn monitor_decision(connected: bool, published: Seq<NetDevice>, current: Seq<NetDevice>) -> MonitorStep {
    if !connected {
        MonitorStep::Reconnect
    } else if net_devices_view(published) != net_devices_view(current) {
        MonitorStep::Publish
    } else {
        MonitorStep::Wait
    }
}

/// The monitor's decision in a round.
pub fn monitor_step(connected: bool, published: &Vec<NetDevice>, current: &Vec<NetDevice>) -> (r: MonitorStep)
    ensures
        r == monitor_decision(connected, published@, current@),
{
    if !connected {
        MonitorStep::Reconnect
    } else if !same_devices(published, current) {
        MonitorStep::Publish
    } else {
        MonitorStep::Wait
    }
}

/// Interfaces that the server accepted are not sent again while they stay
/// the same: once connected, the monitor then waits.
pub proof fn lemma_accepted_not_resent(current: Seq<NetDevice>)
    ensures
        monitor_decision(true, current, current) == MonitorStep::Wait,
{
}

/// What follows a publication: the interfaces last published become those
/// just sent when the server accepted them, and stay as they were otherwise;
/// a refused publication means connecting again (the second value).
pub fn after_publish(published: Vec<NetDevice>, current: Vec<NetDevice>, accepted: bool) -> (r: (
    Vec<NetDevice>,
    bool,
))
    ensures
        accepted ==> r.0@ == current@ && !r.1,
        !accepted ==> r.0@ == published@ && r.1,
{
    if accepted {
        (current, false)
    } else {
        (published, true)
    }
}

} // verus!
