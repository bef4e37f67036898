//! Scanning the local /24 networks: which hosts a scan probes, and what the
//! outputs of `arp`, `getent hosts` and `nslookup` say of a host.
use vstd::prelude::*;

use crate::ip_manager::NetDevice;
use crate::ipv4::{ipv4_text, Ipv4};
use crate::wol::{is_mac_text, is_mac_text_exec};
use crate::text::{
    char_views, chars_of, contains_chars, contains_text, eq_chars, first_some, lemma_first_some_witness,
    lines, lines_of, opt_string_view, split_whitespace, string_of, trim_matches, trim_matches_chars,
    words,
};

verus! {

/// A device found on the network: its IP and MAC addresses and, where one
/// was found, its host name.
#[derive(Debug, Clone)]
pub struct NetworkDevice {
    pub ip: Ipv4,
    pub mac: String,
    pub hostname: Option<String>,
}

/// The hosts `x.y.z.1` to `x.y.z.(n - 1)` of the /24 network of `ip`, in
/// order, without `ip` itself.
pub open spec fn subnet_hosts_below(ip: Ipv4, n: int) -> Seq<Ipv4>
    decreases n,
{
    if n <= 1 {
        Seq::empty()
    } else {
        let rest = subnet_hosts_below(ip, n - 1);
        let t = Ipv4 { a: ip.a, b: ip.b, c: ip.c, d: (n - 1) as u8 };
        if t == ip {
            rest
        } else {
            rest.push(t)
        }
    }
}

/// The hosts that a scan from `ip` probes: `x.y.z.1` to `x.y.z.254` of its
/// /24 network, in order, skipping `ip` itself.
pub open spec fn subnet_targets(ip: Ipv4) -> Seq<Ipv4> {
    subnet_hosts_below(ip, 255)
}

/// The hosts that a scan from all addresses of `device` probes, address by address.
pub open spec fn device_targets(device: NetDevice) -> Seq<Ipv4> {
    device.ips@.map_values(|ip: Ipv4| subnet_targets(ip)).flatten()
}

/// The hosts that a scan of the networks of `devices` probes, device by device.
pub open spec fn scan_targets_of(devices: Seq<NetDevice>) -> Seq<Ipv4> {
    devices.map_values(|d: NetDevice| device_targets(d)).flatten()
}

/// Every host probed from `ip` is another host of its /24 network, numbered
/// 1 to 254; there are 254 of them, or 253 when `ip` is itself one of them.
pub proof fn lemma_subnet_targets(ip: Ipv4)
    ensures
        forall|k: int|
            0 <= k < subnet_targets(ip).len() ==> {
                let t = #[trigger] subnet_targets(ip)[k];
                &&& t != ip
                &&& t.a == ip.a && t.b == ip.b && t.c == ip.c
                &&& 1 <= t.d <= 254
            },
        subnet_targets(ip).len() == if 1 <= ip.d <= 254 {
            253int
        } else {
            254int
        },
{
    lemma_subnet_hosts_below(ip, 255);
}

proof fn lemma_subnet_hosts_below(ip: Ipv4, n: int)
    requires
        n <= 255,
    ensures
        forall|k: int|
            0 <= k < subnet_hosts_below(ip, n).len() ==> {
                let t = #[trigger] subnet_hosts_below(ip, n)[k];
                &&& t != ip
                &&& t.a == ip.a && t.b == ip.b && t.c == ip.c
                &&& 1 <= t.d < n
            },
        subnet_hosts_below(ip, n).len() == if n <= 1 {
            0int
        } else if 1 <= ip.d < n {
            n - 2
        } else {
            n - 1
        },
    decreases n,
{
    if n > 1 {
        lemma_subnet_hosts_below(ip, n - 1);
    }
}

/// A scan from `ip` probes every other host `x.y.z.1` to `x.y.z.254` of its
/// /24 network, each once and in increasing order.
pub proof fn lemma_subnet_targets_complete(ip: Ipv4)
    ensures
        forall|k: int|
            1 <= k <= 254 && k != ip.d ==> #[trigger] subnet_targets(ip).contains(
                Ipv4 { a: ip.a, b: ip.b, c: ip.c, d: k as u8 },
            ),
        forall|i: int, j: int|
            0 <= i < j < subnet_targets(ip).len() ==> (#[trigger] subnet_targets(ip)[i]).d
                < (#[trigger] subnet_targets(ip)[j]).d,
        subnet_targets(ip).no_duplicates(),
{
    lemma_subnet_hosts_below_complete(ip, 255);
    let t = subnet_targets(ip);
    assert forall|i: int, j: int| 0 <= i < t.len() && 0 <= j < t.len() && i != j implies t[i] != t[j] by {
        if i < j {
            assert(t[i].d < t[j].d);
        } else {
            assert(t[j].d < t[i].d);
        }
    }
}

proof fn lemma_subnet_hosts_below_complete(ip: Ipv4, n: int)
    requires
        n <= 255,
    ensures
        forall|k: int|
            1 <= k < n && k != ip.d ==> #[trigger] subnet_hosts_below(ip, n).contains(
                Ipv4 { a: ip.a, b: ip.b, c: ip.c, d: k as u8 },
            ),
        forall|i: int, j: int|
            0 <= i < j < subnet_hosts_below(ip, n).len() ==> (#[trigger] subnet_hosts_below(ip, n)[i]).d
                < (#[trigger] subnet_hosts_below(ip, n)[j]).d,
    decreases n,
{
    lemma_subnet_hosts_below(ip, n);
    if n > 1 {
        lemma_subnet_hosts_below_complete(ip, n - 1);
        lemma_subnet_hosts_below(ip, n - 1);
        let rest = subnet_hosts_below(ip, n - 1);
        let t = Ipv4 { a: ip.a, b: ip.b, c: ip.c, d: (n - 1) as u8 };
        let s = subnet_hosts_below(ip, n);
        assert forall|k: int| 1 <= k < n && k != ip.d implies #[trigger] s.contains(
            Ipv4 { a: ip.a, b: ip.b, c: ip.c, d: k as u8 },
        ) by {
            let x = Ipv4 { a: ip.a, b: ip.b, c: ip.c, d: k as u8 };
            if k < n - 1 {
                assert(rest.contains(x));
                let w = choose|w: int| 0 <= w < rest.len() && rest[w] == x;
                assert(s[w] == x);
            } else {
                assert(t != ip);
                assert(s == rest.push(t));
                assert(s[s.len() - 1] == x);
            }
        }
        assert forall|i: int, j: int| 0 <= i < j < s.len() implies (#[trigger] s[i]).d < (#[trigger] s[j]).d by {
            if t != ip && j == s.len() - 1 {
                assert(rest[i].d < n - 1);
            } else {
                assert(s[i] == rest[i] && s[j] == rest[j]);
            }
        }
    }
}

/// The hosts to probe when scanning the networks of `net_devices`: for each
/// address of each interface, the other hosts of its /24 network.
pub fn scan_targets(net_devices: &Vec<NetDevice>) -> (r: Vec<Ipv4>)
    ensures
        r@ == scan_targets_of(net_devices@),
{
    let ghost devs = net_devices@.map_values(|d: NetDevice| device_targets(d));
    let mut r: Vec<Ipv4> = Vec::new();
    let mut i: usize = 0;
    while i < net_devices.len()
        invariant
            i <= net_devices@.len(),
            devs == net_devices@.map_values(|d: NetDevice| device_targets(d)),
            r@ == devs.take(i as int).flatten(),
        decreases net_devices.len() - i,
    {
        let device = &net_devices[i];
        let ghost base = r@;
        let ghost ips = device.ips@.map_values(|ip: Ipv4| subnet_targets(ip));
        let mut j: usize = 0;
        while j < device.ips.len()
            invariant
                j <= device.ips@.len(),
                ips == device.ips@.map_values(|ip: Ipv4| subnet_targets(ip)),
                r@ == base + ips.take(j as int).flatten(),
            decreases device.ips.len() - j,
        {
            let ip = device.ips[j];
            let ghost before = r@;
            let mut k: u8 = 1;
            assert(subnet_hosts_below(ip, 1) =~= Seq::<Ipv4>::empty());
            while k < 255
                invariant
                    1 <= k <= 255,
                    r@ == before + subnet_hosts_below(ip, k as int),
                decreases 255 - k,
            {
                let t = Ipv4 { a: ip.a, b: ip.b, c: ip.c, d: k };
                if t != ip {
                    r.push(t);
                }
                assert(r@ =~= before + subnet_hosts_below(ip, k + 1));
                k += 1;
            }
            proof {
                assert(ips.take(j + 1) =~= ips.take(j as int).push(subnet_targets(ip)));
                ips.take(j as int).lemma_flatten_push(subnet_targets(ip));
                assert(r@ =~= base + ips.take(j + 1).flatten());
            }
            j += 1;
        }
        proof {
            assert(ips.take(ips.len() as int) =~= ips);
            assert(devs.take(i + 1) =~= devs.take(i as int).push(device_targets(*device)));
            devs.take(i as int).lemma_flatten_push(device_targets(*device));
        }
        i += 1;
    }
    assert(devs.take(devs.len() as int) =~= devs);
    r
}


// ---------------------------------------------------------------------------
// Replies of the lookup commands
// ---------------------------------------------------------------------------

/// In a line of `arp -n` output: the third word, when the line mentions the
/// address `ip_text`, has three words, and the third is written as a MAC
/// address (an `(incomplete)` entry names no address there).
pub open spec fn arp_line_mac(ip_text: Seq<char>, l: Seq<char>) -> Option<Seq<char>> {
    if contains_text(l, ip_text) && words(l).len() >= 3 && is_mac_text(words(l)[2]) {
        Some(words(l)[2])
    } else {
        None
    }
}

pub open spec fn arp_rule(ip: Ipv4) -> spec_fn(Seq<char>) -> Option<Seq<char>> {
    |l: Seq<char>| arp_line_mac(ipv4_text(ip), l)
}

/// The MAC address that `arp -n <ip>` printed for `ip`, from the first line
/// that gives one.
pub open spec fn arp_mac(output: Seq<char>, ip: Ipv4) -> Option<Seq<char>> {
    first_some(lines(output), arp_rule(ip))
}

/// In a line of `getent hosts` output: the second word, when the first word
/// is the address `ip_text`.
pub open spec fn getent_line_name(ip_text: Seq<char>, l: Seq<char>) -> Option<Seq<char>> {
    if words(l).len() >= 2 && words(l)[0] == ip_text {
        Some(words(l)[1])
    } else {
        None
    }
}

pub open spec fn getent_rule(ip: Ipv4) -> spec_fn(Seq<char>) -> Option<Seq<char>> {
    |l: Seq<char>| getent_line_name(ipv4_text(ip), l)
}

/// The host name that `getent hosts <ip>` printed for `ip`, from the first
/// line that gives one.
pub open spec fn getent_name(output: Seq<char>, ip: Ipv4) -> Option<Seq<char>> {
    first_some(lines(output), getent_rule(ip))
}

/// In a line of `nslookup` output such as `1.0.168.192.in-addr.arpa name = host.`:
/// the fourth word without surrounding double quotes, when the line holds
/// `name = ` and its second and third words are `name` and `=`.
pub open spec fn nslookup_line_name(l: Seq<char>) -> Option<Seq<char>> {
    if contains_text(l, "name = "@) && words(l).len() >= 4 && words(l)[1] == "name"@ && words(
        l,
    )[2] == "="@ {
        Some(trim_matches(words(l)[3], '"'))
    } else {
        None
    }
}

pub open spec fn nslookup_rule() -> spec_fn(Seq<char>) -> Option<Seq<char>> {
    |l: Seq<char>| nslookup_line_name(l)
}

/// The host name that `nslookup <ip>` printed, from the first line that gives one.
pub open spec fn nslookup_name(output: Seq<char>) -> Option<Seq<char>> {
    first_some(lines(output), nslookup_rule())
}

/// What `arp -n <ip>` is read to give is written as a MAC address, and is
/// the third word of a line of the output that mentions the address `ip`.
pub proof fn lemma_arp_mac_is_address(output: Seq<char>, ip: Ipv4)
    ensures
        arp_mac(output, ip) matches Some(m) ==> is_mac_text(m) && exists|i: int|
            0 <= i < lines(output).len() && contains_text(#[trigger] lines(output)[i], ipv4_text(ip))
                && words(lines(output)[i]).len() >= 3 && words(lines(output)[i])[2] == m,
{
    lemma_first_some_witness(lines(output), arp_rule(ip));
    if arp_mac(output, ip) is Some {
        let ls = lines(output);
        let i = choose|i: int| 0 <= i < ls.len() && #[trigger] arp_rule(ip)(ls[i]) == first_some(ls, arp_rule(ip));
        assert(arp_line_mac(ipv4_text(ip), ls[i]) == arp_mac(output, ip));
    }
}

/// The MAC address that the output of `arp -n <ip>` gives for `ip`.
pub fn parse_arp_output(output: &str, ip: &Ipv4) -> (r: Option<String>)
    ensures
        opt_string_view(r) == arp_mac(output@, *ip),
{
    let ip_text = chars_of(ip.to_string().as_str());
    let ls = lines_of(chars_of(output).as_slice());
    let ghost all = char_views(ls@);
    let mut i: usize = 0;
    assert(all.skip(0) =~= all);
    while i < ls.len()
        invariant
            i <= ls@.len(),
            all == char_views(ls@),
            all == lines(output@),
            ip_text@ == ipv4_text(*ip),
            first_some(all, arp_rule(*ip)) == first_some(all.skip(i as int), arp_rule(*ip)),
        decreases ls.len() - i,
    {
        assert(all.skip(i as int).drop_first() =~= all.skip(i + 1));
        assert(all.skip(i as int)[0] == ls@[i as int]@);
        let line = ls[i].as_slice();
        if contains_chars(line, ip_text.as_slice()) {
            let w = split_whitespace(line);
            if w.len() >= 3 {
                assert(char_views(w@)[2] == w@[2]@);
            }
            if w.len() >= 3 && is_mac_text_exec(w[2].as_slice()) {
                proof {
                    let l = all[i as int];
                    assert(arp_line_mac(ipv4_text(*ip), l) == Some(w@[2]@));
                    assert(arp_rule(*ip)(all.skip(i as int)[0]) == Some(w@[2]@));
                }
                return Some(string_of(w[2].as_slice()));
            }
        }
        i += 1;
    }
    None
}

/// The host name that the output of `getent hosts <ip>` gives for `ip`.
pub fn parse_getent_output(output: &str, ip: &Ipv4) -> (r: Option<String>)
    ensures
        opt_string_view(r) == getent_name(output@, *ip),
{
    let ip_text = chars_of(ip.to_string().as_str());
    let ls = lines_of(chars_of(output).as_slice());
    let ghost all = char_views(ls@);
    let mut i: usize = 0;
    assert(all.skip(0) =~= all);
    while i < ls.len()
        invariant
            i <= ls@.len(),
            all == char_views(ls@),
            all == lines(output@),
            ip_text@ == ipv4_text(*ip),
            first_some(all, getent_rule(*ip)) == first_some(all.skip(i as int), getent_rule(*ip)),
        decreases ls.len() - i,
    {
        assert(all.skip(i as int).drop_first() =~= all.skip(i + 1));
        assert(all.skip(i as int)[0] == ls@[i as int]@);
        let w = split_whitespace(ls[i].as_slice());
        if w.len() >= 2 {
            assert(char_views(w@)[0] == w@[0]@);
            assert(char_views(w@)[1] == w@[1]@);
            if eq_chars(w[0].as_slice(), ip_text.as_slice()) {
                proof {
                    let l = all[i as int];
                    assert(getent_line_name(ipv4_text(*ip), l) == Some(w@[1]@));
                    assert(getent_rule(*ip)(all.skip(i as int)[0]) == Some(w@[1]@));
                }
                return Some(string_of(w[1].as_slice()));
            }
        }
        i += 1;
    }
    None
}

/// The host name that the output of `nslookup <ip>` gives.
pub fn parse_nslookup_output(output: &str) -> (r: Option<String>)
    ensures
        opt_string_view(r) == nslookup_name(output@),
{
    let marker = chars_of("name = ");
    let name = chars_of("name");
    let eq = chars_of("=");
    let ls = lines_of(chars_of(output).as_slice());
    let ghost all = char_views(ls@);
    let mut i: usize = 0;
    assert(all.skip(0) =~= all);
    while i < ls.len()
        invariant
            i <= ls@.len(),
            all == char_views(ls@),
            all == lines(output@),
            marker@ == "name = "@,
            name@ == "name"@,
            eq@ == "="@,
            first_some(all, nslookup_rule()) == first_some(all.skip(i as int), nslookup_rule()),
        decreases ls.len() - i,
    {
        assert(all.skip(i as int).drop_first() =~= all.skip(i + 1));
        assert(all.skip(i as int)[0] == ls@[i as int]@);
        let line = ls[i].as_slice();
        if contains_chars(line, marker.as_slice()) {
            let w = split_whitespace(line);
            if w.len() >= 4 {
                assert(char_views(w@)[1] == w@[1]@);
                assert(char_views(w@)[2] == w@[2]@);
                assert(char_views(w@)[3] == w@[3]@);
                if eq_chars(w[1].as_slice(), name.as_slice()) && eq_chars(
                    w[2].as_slice(),
                    eq.as_slice(),
                ) {
                    let t = trim_matches_chars(w[3].as_slice(), '"');
                    proof {
                        let l = all[i as int];
                        assert(nslookup_line_name(l) == Some(t@));
                        assert(nslookup_rule()(all.skip(i as int)[0]) == Some(t@));
                    }
                    return Some(string_of(t.as_slice()));
                }
            }
        }
        i += 1;
    }
    None
}

} // verus!
