//! The device list of the home server application: adding, removing and
//! updating devices, which are told apart by their MAC addresses, and the
//! answer to a Wake-on-LAN request.
use vstd::prelude::*;
use vstd::string::StringExecFns;

use crate::text::chars_of;
use crate::wol::{is_mac_text, is_mac_text_exec, mac_digits};

verus! {

/// A device of the list.
#[derive(Debug)]
pub struct Device {
    pub name: String,
    pub mac: String,
    pub ip: Option<String>,
    pub status: String,
}

/// The answer to a Wake-on-LAN request.
#[derive(Debug)]
pub struct WolResponse {
    pub success: bool,
    pub message: String,
}

impl Device {
    /// A copy of the device.
    pub fn copy(&self) -> (r: Device)
        ensures
            r == *self,
    {
        Device {
            name: self.name.clone(),
            mac: self.mac.clone(),
            ip: match &self.ip {
                Some(ip) => Some(ip.clone()),
                None => None,
            },
            status: self.status.clone(),
        }
    }
}

/// Whether one of `devices` has the MAC address `mac`.
pub open spec fn has_mac(devices: Seq<Device>, mac: Seq<char>) -> bool {
    exists|i: int| 0 <= i < devices.len() && (#[trigger] devices[i]).mac@ == mac
}

/// Whether no two of `devices` share a MAC address.
pub open spec fn macs_unique(devices: Seq<Device>) -> bool {
    forall|i: int, j: int|
        0 <= i < devices.len() && 0 <= j < devices.len() && i != j ==> (#[trigger] devices[i]).mac@
            != (#[trigger] devices[j]).mac@
}

/// `devices` without those with the MAC address `mac`, in order.
pub open spec fn without_mac(devices: Seq<Device>, mac: Seq<char>) -> Seq<Device>
    decreases devices.len(),
{
    if devices.len() == 0 {
        devices
    } else if devices.last().mac@ == mac {
        without_mac(devices.drop_last(), mac)
    } else {
        without_mac(devices.drop_last(), mac).push(devices.last())
    }
}

/// The position of the first of `devices` with the MAC address `mac`.
pub open spec fn first_with_mac(devices: Seq<Device>, mac: Seq<char>) -> Option<int>
    decreases devices.len(),
{
    if devices.len() == 0 {
        None
    } else if devices[0].mac@ == mac {
        Some(0)
    } else {
        match first_with_mac(devices.drop_first(), mac) {
            Some(i) => Some(i + 1),
            None => None,
        }
    }
}

/// `d` with the status `status`.
pub open spec fn with_status(d: Device, status: String) -> Device {
    Device { status, ..d }
}

pub open spec fn duplicate_mac_message() -> Seq<char> {
    "Device with this MAC address already exists"@
}

pub open spec fn not_found_message() -> Seq<char> {
    "Device not found"@
}

fn same_mac(d: &Device, mac: &String) -> (r: bool)
    ensures
        r == (d.mac@ == mac@),
{
    d.mac == *mac
}

/// The devices of the list, as a new list.
pub fn get_devices(devices: &Vec<Device>) -> (r: Vec<Device>)
    ensures
        r@ == devices@,
{
    let mut r: Vec<Device> = Vec::new();
    let mut i: usize = 0;
    while i < devices.len()
        invariant
            i <= devices@.len(),
            r@ =~= devices@.take(i as int),
        decreases devices.len() - i,
    {
        r.push(devices[i].copy());
        i += 1;
    }
    assert(devices@.take(devices@.len() as int) =~= devices@);
    r
}

/// Adds `device` to the list, unless a device with its MAC address is there already.
pub fn add_device(devices: &mut Vec<Device>, device: Device) -> (r: Result<(), String>)
    ensures
        has_mac(old(devices)@, device.mac@) ==> final(devices)@ == old(devices)@ && (r matches Err(
            e,
        ) && e@ == duplicate_mac_message()),
        !has_mac(old(devices)@, device.mac@) ==> final(devices)@ == old(devices)@.push(device)
            && r is Ok,
{
    let mut i: usize = 0;
    while i < devices.len()
        invariant
            i <= devices@.len(),
            devices@ == old(devices)@,
            forall|k: int| 0 <= k < i ==> (#[trigger] devices@[k]).mac@ != device.mac@,
        decreases devices.len() - i,
    {
        if same_mac(&devices[i], &device.mac) {
            assert(has_mac(devices@, device.mac@));
            return Err(String::from_str("Device with this MAC address already exists"));
        }
        i += 1;
    }
    devices.push(device);
    Ok(())
}

/// Removes the devices with the MAC address `mac`; it is an error when there is none.
pub fn remove_device(devices: &mut Vec<Device>, mac: &str) -> (r: Result<(), String>)
    ensures
        final(devices)@ == without_mac(old(devices)@, mac@),
        has_mac(old(devices)@, mac@) ==> r is Ok,
        !has_mac(old(devices)@, mac@) ==> (r matches Err(e) && e@ == not_found_message()),
{
    let wanted = String::from_str(mac);
    let mut old_list: Vec<Device> = Vec::new();
    std::mem::swap(devices, &mut old_list);
    let initial_len = old_list.len();
    let mut i: usize = 0;
    while i < old_list.len()
        invariant
            i <= old_list@.len(),
            wanted@ == mac@,
            initial_len == old_list@.len(),
            old_list@ == old(devices)@,
            devices@ == without_mac(old_list@.take(i as int), mac@),
            devices@.len() == i <==> !has_mac(old_list@.take(i as int), mac@),
            devices@.len() <= i,
        decreases old_list.len() - i,
    {
        let ghost before = old_list@.take(i as int);
        proof {
            assert(old_list@.take(i + 1).drop_last() =~= before);
            assert(old_list@.take(i + 1).last() == old_list@[i as int]);
        }
        if !same_mac(&old_list[i], &wanted) {
            devices.push(old_list[i].copy());
            proof {
                if has_mac(old_list@.take(i + 1), mac@) {
                    let k = choose|k: int|
                        0 <= k < i + 1 && (#[trigger] old_list@.take(i + 1)[k]).mac@ == mac@;
                    assert(before[k] == old_list@.take(i + 1)[k]);
                }
            }
        } else {
            assert(old_list@.take(i + 1)[i as int] == old_list@[i as int]);
        }
        proof {
            if has_mac(before, mac@) {
                let k = choose|k: int| 0 <= k < i && (#[trigger] before[k]).mac@ == mac@;
                assert(old_list@.take(i + 1)[k] == before[k]);
            }
        }
        i += 1;
    }
    assert(old_list@.take(old_list@.len() as int) =~= old_list@);
    if devices.len() == initial_len {
        Err(String::from_str("Device not found"))
    } else {
        Ok(())
    }
}

/// Sets the status of the first device with the MAC address `mac`; it is an
/// error when there is none.
pub fn update_device_status(devices: &mut Vec<Device>, mac: &str, status: String) -> (r: Result<
    (),
    String,
>)
    ensures
        match first_with_mac(old(devices)@, mac@) {
            Some(i) => final(devices)@ == old(devices)@.update(
                i,
                with_status(old(devices)@[i], status),
            ) && r is Ok,
            None => final(devices)@ == old(devices)@ && (r matches Err(e) && e@
                == not_found_message()),
        },
{
    let wanted = String::from_str(mac);
    let mut i: usize = 0;
    assert(devices@.skip(0) =~= devices@);
    while i < devices.len()
        invariant
            i <= devices@.len(),
            wanted@ == mac@,
            devices@ == old(devices)@,
            first_with_mac(devices@, mac@) == match first_with_mac(devices@.skip(i as int), mac@) {
                Some(k) => Some(k + i),
                None => None,
            },
        decreases devices.len() - i,
    {
        assert(devices@.skip(i as int).drop_first() =~= devices@.skip(i + 1));
        if same_mac(&devices[i], &wanted) {
            let mut d = devices[i].copy();
            d.status = status;
            devices.set(i, d);
            return Ok(());
        }
        i += 1;
    }
    Err(String::from_str("Device not found"))
}

// ---------------------------------------------------------------------------
// Laws of the list
// ---------------------------------------------------------------------------

/// Adding a device with a new MAC address, removing devices and updating a
/// status each keep the MAC addresses of the list distinct.
pub proof fn lemma_registry_keeps_macs_unique(
    devices: Seq<Device>,
    device: Device,
    mac: Seq<char>,
    status: String,
)
    requires
        macs_unique(devices),
    ensures
        !has_mac(devices, device.mac@) ==> macs_unique(devices.push(device)),
        macs_unique(without_mac(devices, mac)),
        match first_with_mac(devices, mac) {
            Some(i) => macs_unique(devices.update(i, with_status(devices[i], status))),
            None => true,
        },
{
    if !has_mac(devices, device.mac@) {
        let d2 = devices.push(device);
        assert forall|i: int, j: int|
            0 <= i < d2.len() && 0 <= j < d2.len() && i != j implies (#[trigger] d2[i]).mac@
            != (#[trigger] d2[j]).mac@ by {
            if i == devices.len() {
                assert(devices[j] == d2[j]);
            } else if j == devices.len() {
                assert(devices[i] == d2[i]);
            } else {
                assert(devices[i] == d2[i] && devices[j] == d2[j]);
            }
        }
    }
    lemma_without_mac_unique(devices, mac);
    match first_with_mac(devices, mac) {
        Some(i) => {
            lemma_first_with_mac(devices, mac);
            let d2 = devices.update(i, with_status(devices[i], status));
            assert forall|a: int, b: int|
                0 <= a < d2.len() && 0 <= b < d2.len() && a != b implies (#[trigger] d2[a]).mac@
                != (#[trigger] d2[b]).mac@ by {
                assert(d2[a].mac == devices[a].mac);
                assert(d2[b].mac == devices[b].mac);
            }
        },
        None => {},
    }
}

proof fn lemma_first_with_mac(devices: Seq<Device>, mac: Seq<char>)
    ensures
        match first_with_mac(devices, mac) {
            Some(i) => 0 <= i < devices.len() && devices[i].mac@ == mac,
            None => !has_mac(devices, mac),
        },
    decreases devices.len(),
{
    if devices.len() > 0 {
        lemma_first_with_mac(devices.drop_first(), mac);
        if devices[0].mac@ != mac {
            if has_mac(devices, mac) {
                let k = choose|k: int| 0 <= k < devices.len() && (#[trigger] devices[k]).mac@ == mac;
                assert(devices.drop_first()[k - 1] == devices[k]);
            }
        }
    }
}

/// The devices kept by `without_mac` are devices of the list, in order, none
/// with the removed address.
proof fn lemma_without_mac_members(devices: Seq<Device>, mac: Seq<char>)
    ensures
        forall|k: int|
            0 <= k < without_mac(devices, mac).len() ==> (#[trigger] without_mac(devices, mac)[k]).mac@
                != mac,
        without_mac(devices, mac).len() <= devices.len(),
        !has_mac(devices, mac) ==> without_mac(devices, mac) == devices,
    decreases devices.len(),
{
    if devices.len() > 0 {
        lemma_without_mac_members(devices.drop_last(), mac);
        if !has_mac(devices, mac) {
            assert(devices[devices.len() - 1] == devices.last());
            if has_mac(devices.drop_last(), mac) {
                let k = choose|k: int|
                    0 <= k < devices.drop_last().len() && (#[trigger] devices.drop_last()[k]).mac@
                        == mac;
                assert(devices[k] == devices.drop_last()[k]);
            }
            assert(devices.drop_last().push(devices.last()) =~= devices);
        }
    }
}

proof fn lemma_without_mac_unique(devices: Seq<Device>, mac: Seq<char>)
    requires
        macs_unique(devices),
    ensures
        macs_unique(without_mac(devices, mac)),
        forall|k: int|
            0 <= k < without_mac(devices, mac).len() ==> has_mac(
                devices,
                (#[trigger] without_mac(devices, mac)[k]).mac@,
            ),
    decreases devices.len(),
{
    if devices.len() > 0 {
        let dl = devices.drop_last();
        assert forall|i: int, j: int|
            0 <= i < dl.len() && 0 <= j < dl.len() && i != j implies (#[trigger] dl[i]).mac@
            != (#[trigger] dl[j]).mac@ by {
            assert(dl[i] == devices[i] && dl[j] == devices[j]);
        }
        lemma_without_mac_unique(dl, mac);
        let w = without_mac(dl, mac);
        assert forall|k: int| 0 <= k < w.len() implies has_mac(devices, (#[trigger] w[k]).mac@) by {
            assert(has_mac(dl, w[k].mac@));
            let m = choose|m: int| 0 <= m < dl.len() && (#[trigger] dl[m]).mac@ == w[k].mac@;
            assert(devices[m] == dl[m]);
        }
        if devices.last().mac@ != mac {
            let w2 = w.push(devices.last());
            assert forall|k: int| 0 <= k < w.len() implies (#[trigger] w[k]).mac@ != devices.last().mac@ by {
                assert(has_mac(dl, w[k].mac@));
                let m = choose|m: int| 0 <= m < dl.len() && (#[trigger] dl[m]).mac@ == w[k].mac@;
                assert(devices[m] == dl[m]);
                assert(devices[devices.len() - 1] == devices.last());
            }
            assert forall|i: int, j: int|
                0 <= i < w2.len() && 0 <= j < w2.len() && i != j implies (#[trigger] w2[i]).mac@
                != (#[trigger] w2[j]).mac@ by {
                if i == w.len() {
                    assert(w2[j] == w[j]);
                } else if j == w.len() {
                    assert(w2[i] == w[i]);
                } else {
                    assert(w2[i] == w[i] && w2[j] == w[j]);
                }
            }
            assert forall|k: int| 0 <= k < w2.len() implies has_mac(devices, (#[trigger] w2[k]).mac@) by {
                if k < w.len() {
                    assert(w2[k] == w[k]);
                } else {
                    assert(devices[devices.len() - 1] == devices.last());
                }
            }
        }
    }
}

/// Removing a device just added restores the list: adding a device with a
/// new MAC address and then removing that address gives the list back.
pub proof fn lemma_remove_undoes_add(devices: Seq<Device>, device: Device)
    requires
        !has_mac(devices, device.mac@),
    ensures
        without_mac(devices.push(device), device.mac@) == devices,
{
    let d2 = devices.push(device);
    assert(d2.drop_last() =~= devices);
    lemma_without_mac_members(devices, device.mac@);
}

/// After a removal, no device with the removed MAC address is left; after a
/// successful addition, the added address is in the list.
pub proof fn lemma_registry_membership(devices: Seq<Device>, device: Device, mac: Seq<char>)
    ensures
        !has_mac(without_mac(devices, mac), mac),
        has_mac(devices.push(device), device.mac@),
{
    lemma_without_mac_members(devices, mac);
    assert(devices.push(device)[devices.len() as int] == device);
}

// ---------------------------------------------------------------------------
// Wake-on-LAN requests
// ---------------------------------------------------------------------------

proof fn lemma_mac_digits_idempotent(s: Seq<char>)
    ensures
        mac_digits(mac_digits(s)) == mac_digits(s),
        forall|i: int| 0 <= i < mac_digits(s).len() ==> #[trigger] mac_digits(s)[i] != ':' && mac_digits(s)[i] != '-',
    decreases s.len(),
{
    if s.len() > 0 {
        lemma_mac_digits_idempotent(s.drop_last());
        let t = mac_digits(s.drop_last());
        if !(s.last() == ':' || s.last() == '-') {
            assert(t.push(s.last()).drop_last() =~= t);
        }
    }
}

/// Both notations of an address are accepted alike: an address passes the
/// check exactly when its form without separators does.
pub proof fn lemma_send_wol_ignores_separators(mac: Seq<char>)
    ensures
        is_mac_text(mac) == is_mac_text(mac_digits(mac)),
{
    lemma_mac_digits_idempotent(mac);
}

pub open spec fn wol_format_error() -> Seq<char> {
    "Invalid MAC address format"@
}

/// The broadcast address a request names, or `255.255.255.255`.
pub open spec fn broadcast_or_default(broadcast: Option<String>) -> Seq<char> {
    match broadcast {
        Some(b) => b@,
        None => "255.255.255.255"@,
    }
}

/// The answer to a request to wake `mac` through `broadcast`: the address,
/// without `:` and `-`, must be twelve hexadecimal digits.
pub fn send_wol(mac: &str, broadcast: Option<String>) -> (r: Result<WolResponse, String>)
    ensures
        !is_mac_text(mac@) ==> (r matches Err(e) && e@ == wol_format_error()),
        is_mac_text(mac@) ==> (r matches Ok(resp) && resp.success && resp.message@
            == "✨ Magic packet sent to "@ + mac@ + " (broadcast: "@ + broadcast_or_default(
            broadcast,
        ) + ")"@),
{
    let cs = chars_of(mac);
    if !is_mac_text_exec(cs.as_slice()) {
        return Err(String::from_str("Invalid MAC address format"));
    }
    let b = match broadcast {
        Some(b) => b,
        None => String::from_str("255.255.255.255"),
    };
    let mut message = String::from_str("✨ Magic packet sent to ");
    message.append(mac);
    message.append(" (broadcast: ");
    message.append(b.as_str());
    message.append(")");
    Ok(WolResponse { success: true, message })
}

} // verus!
