//! What the server knows of the local network: the host's own interfaces, read
//! from the output of `ip link show` and `ip addr show`, and lookups in the
//! list of devices found on the network.
use vstd::prelude::*;
use vstd::string::StringExecFns;

use crate::ipv4::{parse_ipv4, Ipv4};
use crate::network_scanner::NetworkDevice;
use crate::text::{
    char_views, chars_of, contains_chars, contains_text, copy_chars, lemma_split_char_concat,
    lemma_split_char_nonempty, lemma_split_char_single,
    second_piece, second_piece_chars, split_char, split_on_char, split_whitespace, starts_with,
    strip_prefix, strip_prefix_chars, string_of, string_views, trim_start, trim_start_chars, words, opt_string_view,
};

verus! {

/// A network interface of this host: its name, MAC address and IPv4 addresses.
#[derive(Debug, Clone)]
pub struct NetDevice {
    pub device_name: String,
    pub mac: String,
    pub ips: Vec<Ipv4>,
}

// ---------------------------------------------------------------------------
// Fields of `ip` output
// ---------------------------------------------------------------------------

/// The field that a parser of `ip` output takes from each line.
#[derive(Clone, Copy, Debug, PartialEq, Eq, Structural)]
pub enum LineField {
    /// The interface name of an `ip link show` line: the text after the first
    /// `": "` up to the next one; lines that start with `link` have none.
    LinkName,
    /// The address of an `inet ` line, without its `/prefix` length.
    InetAddress,
    /// The address of an `inet ` line, with its `/prefix` length.
    InetWithPrefix,
    /// The address of an `inet6 ` line.
    Inet6Address,
    /// The hardware address of a `link/` line: its second word.
    LinkAddress,
}

/// The field that `f` names in the line `l`, if `l` has one. Leading
/// whitespace of the line is ignored.
pub open spec fn line_field(f: LineField, l: Seq<char>) -> Option<Seq<char>> {
    let t = trim_start(l);
    match f {
        LineField::LinkName => if "link"@.is_prefix_of(t) {
            None
        } else {
            second_piece(t, ": "@)
        },
        LineField::InetAddress => match strip_prefix(t, "inet "@) {
            Some(rest) => if words(rest).len() > 0 {
                Some(split_char(words(rest)[0], '/')[0])
            } else {
                None
            },
            None => None,
        },
        LineField::InetWithPrefix => match strip_prefix(t, "inet "@) {
            Some(rest) => if words(rest).len() > 0 {
                Some(words(rest)[0])
            } else {
                None
            },
            None => None,
        },
        LineField::Inet6Address => match strip_prefix(t, "inet6 "@) {
            Some(rest) => if words(rest).len() > 0 {
                Some(words(rest)[0])
            } else {
                None
            },
            None => None,
        },
        LineField::LinkAddress => match strip_prefix(t, "link/"@) {
            Some(rest) => if words(rest).len() >= 2 {
                Some(words(rest)[1])
            } else {
                None
            },
            None => None,
        },
    }
}

pub open spec fn field_of(f: LineField) -> spec_fn(Seq<char>) -> Option<Seq<char>> {
    |l: Seq<char>| line_field(f, l)
}

/// The fields that `f` names in the lines of `s` (split at `\n`), in order.
pub open spec fn field_values(s: Seq<char>, f: LineField) -> Seq<Seq<char>> {
    split_char(s, '\n').filter_map(field_of(f))
}

pub open spec fn opt_chars(r: Option<Vec<char>>) -> Option<Seq<char>> {
    match r {
        Some(v) => Some(v@),
        None => None,
    }
}

fn first_word_after(t: &[char], prefix: &str) -> (r: Option<Vec<Vec<char>>>)
    ensures
        match r {
            Some(w) => strip_prefix(t@, prefix@) matches Some(rest) && char_views(w@) == words(
                rest,
            ),
            None => strip_prefix(t@, prefix@) is None,
        },
{
    let p = chars_of(prefix);
    match strip_prefix_chars(t, p.as_slice()) {
        Some(rest) => Some(split_whitespace(rest.as_slice())),
        None => None,
    }
}

fn line_field_exec(f: LineField, l: &[char]) -> (r: Option<Vec<char>>)
    ensures
        opt_chars(r) == line_field(f, l@),
{
    let t = trim_start_chars(l);
    match f {
        LineField::LinkName => {
            let link = chars_of("link");
            if starts_with(t.as_slice(), link.as_slice()) {
                None
            } else {
                let sep = chars_of(": ");
                second_piece_chars(t.as_slice(), sep.as_slice())
            }
        },
        LineField::InetAddress => match first_word_after(t.as_slice(), "inet ") {
            Some(w) => {
                if w.len() > 0 {
                    assert(char_views(w@)[0] == w@[0]@);
                    let pieces = split_on_char(w[0].as_slice(), '/');
                    proof {
                        lemma_split_char_nonempty(w@[0]@, '/');
                        assert(char_views(pieces@)[0] == pieces@[0]@);
                    }
                    Some(copy_chars(pieces[0].as_slice()))
                } else {
                    None
                }
            },
            None => None,
        },
        LineField::InetWithPrefix => match first_word_after(t.as_slice(), "inet ") {
            Some(w) => {
                if w.len() > 0 {
                    assert(char_views(w@)[0] == w@[0]@);
                    Some(copy_chars(w[0].as_slice()))
                } else {
                    None
                }
            },
            None => None,
        },
        LineField::Inet6Address => match first_word_after(t.as_slice(), "inet6 ") {
            Some(w) => {
                if w.len() > 0 {
                    assert(char_views(w@)[0] == w@[0]@);
                    Some(copy_chars(w[0].as_slice()))
                } else {
                    None
                }
            },
            None => None,
        },
        LineField::LinkAddress => match first_word_after(t.as_slice(), "link/") {
            Some(w) => {
                if w.len() >= 2 {
                    assert(char_views(w@)[1] == w@[1]@);
                    Some(copy_chars(w[1].as_slice()))
                } else {
                    None
                }
            },
            None => None,
        },
    }
}

/// The fields that `f` names in the lines of `s`, as strings.
pub fn collect_fields(s: &str, f: LineField) -> (r: Vec<String>)
    ensures
        string_views(r@) == field_values(s@, f),
{
    let cs = chars_of(s);
    let ls = split_on_char(cs.as_slice(), '\n');
    let ghost lines = char_views(ls@);
    let mut r: Vec<String> = Vec::new();
    let mut i: usize = 0;
    while i < ls.len()
        invariant
            i <= ls@.len(),
            lines == char_views(ls@),
            lines == split_char(s@, '\n'),
            string_views(r@) =~= lines.take(i as int).filter_map(field_of(f)),
        decreases ls.len() - i,
    {
        proof {
            lines.lemma_filter_map_take_succ(field_of(f), i as int);
            assert(lines[i as int] == ls@[i as int]@);
        }
        match line_field_exec(f, ls[i].as_slice()) {
            Some(v) => {
                r.push(string_of(v.as_slice()));
            },
            None => {},
        }
        i += 1;
    }
    assert(lines.take(lines.len() as int) =~= lines);
    r
}

// ---------------------------------------------------------------------------
// The parsers
// ---------------------------------------------------------------------------

/// The interface names in the output of `ip link show`.
pub fn parse_net_devices(ip_link_show: &str) -> (r: Vec<String>)
    ensures
        string_views(r@) == field_values(ip_link_show@, LineField::LinkName),
{
    collect_fields(ip_link_show, LineField::LinkName)
}

/// The IPv4 addresses in the output of `ip addr show`, without prefix lengths.
pub fn parse_ipv4_addr(ip_addr_show: &str) -> (r: Vec<String>)
    ensures
        string_views(r@) == field_values(ip_addr_show@, LineField::InetAddress),
{
    collect_fields(ip_addr_show, LineField::InetAddress)
}

/// The IPv6 addresses in the output of `ip addr show`.
pub fn parse_ipv6_addr(ip_addr_show: &str) -> (r: Vec<String>)
    ensures
        string_views(r@) == field_values(ip_addr_show@, LineField::Inet6Address),
{
    collect_fields(ip_addr_show, LineField::Inet6Address)
}

/// The hardware addresses in the output of `ip addr show`, run together into
/// one string.
pub fn parse_mac_addr(ip_addr_show: &str) -> (r: String)
    ensures
        r@ == field_values(ip_addr_show@, LineField::LinkAddress).flatten(),
{
    let macs = collect_fields(ip_addr_show, LineField::LinkAddress);
    let ghost all = string_views(macs@);
    let mut r = String::new();
    let mut i: usize = 0;
    while i < macs.len()
        invariant
            i <= macs@.len(),
            all == string_views(macs@),
            r@ == all.take(i as int).flatten(),
        decreases macs.len() - i,
    {
        proof {
            assert(all.take(i + 1) =~= all.take(i as int).push(macs@[i as int]@));
            all.take(i as int).lemma_flatten_push(macs@[i as int]@);
        }
        r.append(macs[i].as_str());
        i += 1;
    }
    assert(all.take(all.len() as int) =~= all);
    r
}

/// Whether every IPv4 address that `ip addr show` printed reads as an address.
pub open spec fn ipv4_texts_valid(ip_addr_show: Seq<char>) -> bool {
    forall|i: int|
        0 <= i < field_values(ip_addr_show, LineField::InetAddress).len() ==> #[trigger] parse_ipv4(
            field_values(ip_addr_show, LineField::InetAddress)[i],
        ) is Some
}

/// The IPv4 addresses in the output of `ip addr show`. Every address printed
/// there must read as one: the program stops on one that does not.
pub fn parse_ip_addr(ip_addr_show: &str) -> (r: Vec<Ipv4>)
    requires
        ipv4_texts_valid(ip_addr_show@),
    ensures
        r@ == field_values(ip_addr_show@, LineField::InetAddress).map_values(
            |t: Seq<char>| parse_ipv4(t)->0,
        ),
{
    let texts = parse_ipv4_addr(ip_addr_show);
    let ghost all = field_values(ip_addr_show@, LineField::InetAddress);
    let mut r: Vec<Ipv4> = Vec::new();
    let mut i: usize = 0;
    while i < texts.len()
        invariant
            i <= texts@.len(),
            all == string_views(texts@),
            ipv4_texts_valid(ip_addr_show@),
            all == field_values(ip_addr_show@, LineField::InetAddress),
            r@ =~= all.take(i as int).map_values(|t: Seq<char>| parse_ipv4(t)->0),
        decreases texts.len() - i,
    {
        assert(all[i as int] == texts@[i as int]@);
        assert(parse_ipv4(all[i as int]) is Some);
        match Ipv4::parse(texts[i].as_str()) {
            Some(ip) => r.push(ip),
            None => {
                assert(false);
            },
        }
        i += 1;
    }
    r
}

// ---------------------------------------------------------------------------
// Interfaces left out
// ---------------------------------------------------------------------------

/// Whether an interface is left out of the host's own interfaces: loopback,
/// container and virtual bridges, and virtual ethernet pairs.
pub open spec fn ignored_interface(name: Seq<char>) -> bool {
    ||| name == "lo"@
    ||| name == "docker0"@
    ||| name == "lxcbr0"@
    ||| name == "virbr0"@
    ||| name == "easytier0"@
    ||| contains_text(name, "veth"@)
    ||| contains_text(name, "br-"@)
}

pub fn is_ignored_interface(device_name: &str) -> (r: bool)
    ensures
        r == ignored_interface(device_name@),
{
    let name = String::from_str(device_name);
    let lo = String::from_str("lo");
    let docker = String::from_str("docker0");
    let lxc = String::from_str("lxcbr0");
    let virbr = String::from_str("virbr0");
    let easytier = String::from_str("easytier0");
    let cs = chars_of(device_name);
    let veth = chars_of("veth");
    let br = chars_of("br-");
    name == lo || name == docker || name == lxc || name == virbr || name == easytier
        || contains_chars(cs.as_slice(), veth.as_slice()) || contains_chars(
        cs.as_slice(),
        br.as_slice(),
    )
}

// ---------------------------------------------------------------------------
// Looking up the devices found on the network
// ---------------------------------------------------------------------------

/// The MAC address of the first device with IP address `ip`.
pub open spec fn mac_for_ip(devices: Seq<NetworkDevice>, ip: Ipv4) -> Option<Seq<char>>
    decreases devices.len(),
{
    if devices.len() == 0 {
        None
    } else if devices[0].ip == ip {
        Some(devices[0].mac@)
    } else {
        mac_for_ip(devices.drop_first(), ip)
    }
}

/// The MAC address of the first device whose host name is `hostname`.
pub open spec fn mac_for_hostname(devices: Seq<NetworkDevice>, hostname: Seq<char>) -> Option<
    Seq<char>,
>
    decreases devices.len(),
{
    if devices.len() == 0 {
        None
    } else if devices[0].hostname matches Some(h) && h@ == hostname {
        Some(devices[0].mac@)
    } else {
        mac_for_hostname(devices.drop_first(), hostname)
    }
}

/// The host name of the first device with IP address `ip`, if that device has one.
pub open spec fn hostname_for_ip(devices: Seq<NetworkDevice>, ip: Ipv4) -> Option<Seq<char>>
    decreases devices.len(),
{
    if devices.len() == 0 {
        None
    } else if devices[0].ip == ip {
        match devices[0].hostname {
            Some(h) => Some(h@),
            None => None,
        }
    } else {
        hostname_for_ip(devices.drop_first(), ip)
    }
}

/// The MAC address of the first of `devices` with IP address `ip`.
pub fn get_mac_by_ip(devices: &Vec<NetworkDevice>, ip: &Ipv4) -> (r: Option<String>)
    ensures
        opt_string_view(r) == mac_for_ip(devices@, *ip),
{
    let mut i: usize = 0;
    assert(devices@.skip(0) =~= devices@);
    while i < devices.len()
        invariant
            i <= devices@.len(),
            mac_for_ip(devices@, *ip) == mac_for_ip(devices@.skip(i as int), *ip),
        decreases devices.len() - i,
    {
        assert(devices@.skip(i as int).drop_first() =~= devices@.skip(i + 1));
        if devices[i].ip == *ip {
            return Some(devices[i].mac.clone());
        }
        i += 1;
    }
    None
}

/// The MAC address of the first of `devices` whose host name is `hostname`.
pub fn get_mac_by_hostname(devices: &Vec<NetworkDevice>, hostname: &str) -> (r: Option<String>)
    ensures
        opt_string_view(r) == mac_for_hostname(devices@, hostname@),
{
    let wanted = String::from_str(hostname);
    let mut i: usize = 0;
    assert(devices@.skip(0) =~= devices@);
    while i < devices.len()
        invariant
            i <= devices@.len(),
            wanted@ == hostname@,
            mac_for_hostname(devices@, hostname@) == mac_for_hostname(
                devices@.skip(i as int),
                hostname@,
            ),
        decreases devices.len() - i,
    {
        assert(devices@.skip(i as int).drop_first() =~= devices@.skip(i + 1));
        match &devices[i].hostname {
            Some(h) => {
                if *h == wanted {
                    return Some(devices[i].mac.clone());
                }
            },
            None => {},
        }
        i += 1;
    }
    None
}

/// The host name that `devices` give for `ip`: that of the first device with
/// this address, if it has one.
pub fn get_hostname_from_config_ip(ip: &Ipv4, devices: &Vec<NetworkDevice>) -> (r: Option<String>)
    ensures
        opt_string_view(r) == hostname_for_ip(devices@, *ip),
{
    let mut i: usize = 0;
    assert(devices@.skip(0) =~= devices@);
    while i < devices.len()
        invariant
            i <= devices@.len(),
            hostname_for_ip(devices@, *ip) == hostname_for_ip(devices@.skip(i as int), *ip),
        decreases devices.len() - i,
    {
        assert(devices@.skip(i as int).drop_first() =~= devices@.skip(i + 1));
        if devices[i].ip == *ip {
            return match &devices[i].hostname {
                Some(h) => Some(h.clone()),
                None => None,
            };
        }
        i += 1;
    }
    None
}

// ---------------------------------------------------------------------------
// Laws
// ---------------------------------------------------------------------------

proof fn lemma_filter_map_concat(a: Seq<Seq<char>>, b: Seq<Seq<char>>, f: spec_fn(Seq<char>) -> Option<Seq<char>>)
    ensures
        (a + b).filter_map(f) == a.filter_map(f) + b.filter_map(f),
    decreases b.len(),
{
    if b.len() == 0 {
        assert(a + b =~= a);
        assert(a.filter_map(f) + b.filter_map(f) =~= a.filter_map(f));
    } else {
        assert((a + b).drop_last() =~= a + b.drop_last());
        assert((a + b).last() == b.last());
        lemma_filter_map_concat(a, b.drop_last(), f);
        match f(b.last()) {
            Some(v) => {
                assert(a.filter_map(f) + b.drop_last().filter_map(f) + seq![v] =~= a.filter_map(f) + (
                b.drop_last().filter_map(f) + seq![v]));
            },
            None => {},
        }
    }
}

/// Reading `ip` output goes line by line: the fields of two texts joined by
/// a line break are those of the first text followed by those of the second,
/// and a single line gives its own field, if it has one. Every line with a
/// field contributes it, none is dropped or repeated.
pub proof fn lemma_field_values_by_line(s1: Seq<char>, s2: Seq<char>, l: Seq<char>, f: LineField)
    requires
        forall|i: int| 0 <= i < l.len() ==> l[i] != '\n',
    ensures
        field_values(s1 + seq!['\n'] + s2, f) == field_values(s1, f) + field_values(s2, f),
        field_values(l, f) == match line_field(f, l) {
            Some(v) => seq![v],
            None => Seq::<Seq<char>>::empty(),
        },
{
    lemma_split_char_concat(s1, s2, '\n');
    lemma_filter_map_concat(split_char(s1, '\n'), split_char(s2, '\n'), field_of(f));
    lemma_split_char_single(l, '\n');
    Seq::lemma_filter_map_singleton(l, field_of(f));
}

/// The MAC address found for `ip` is that of the first device whose address
/// is `ip` (all four octets), and none is found exactly when no device has
/// that address.
pub proof fn lemma_mac_for_ip_first_match(devices: Seq<NetworkDevice>, ip: Ipv4)
    ensures
        forall|i: int|
            0 <= i < devices.len() && #[trigger] devices[i].ip == ip && (forall|j: int|
                0 <= j < i ==> devices[j].ip != ip) ==> mac_for_ip(devices, ip) == Some(
                devices[i].mac@,
            ),
        (mac_for_ip(devices, ip) is None) <==> (forall|i: int|
            0 <= i < devices.len() ==> #[trigger] devices[i].ip != ip),
    decreases devices.len(),
{
    if devices.len() > 0 {
        let rest = devices.drop_first();
        lemma_mac_for_ip_first_match(rest, ip);
        assert forall|i: int|
            0 <= i < devices.len() && #[trigger] devices[i].ip == ip && (forall|j: int|
                0 <= j < i ==> devices[j].ip != ip) implies mac_for_ip(devices, ip) == Some(
            devices[i].mac@,
        ) by {
            if i > 0 {
                assert(devices[0].ip != ip);
                assert(rest[i - 1] == devices[i]);
                assert forall|j: int| 0 <= j < i - 1 implies rest[j].ip != ip by {
                    assert(rest[j] == devices[j + 1]);
                }
            }
        }
        if devices[0].ip != ip {
            assert((forall|i: int| 0 <= i < rest.len() ==> #[trigger] rest[i].ip != ip) == (forall|
                i: int,
            | 0 <= i < devices.len() ==> #[trigger] devices[i].ip != ip)) by {
                if forall|i: int| 0 <= i < rest.len() ==> #[trigger] rest[i].ip != ip {
                    assert forall|i: int| 0 <= i < devices.len() implies #[trigger] devices[i].ip != ip by {
                        if i > 0 {
                            assert(rest[i - 1] == devices[i]);
                        }
                    }
                }
                if forall|i: int| 0 <= i < devices.len() ==> #[trigger] devices[i].ip != ip {
                    assert forall|i: int| 0 <= i < rest.len() implies #[trigger] rest[i].ip != ip by {
                        assert(rest[i] == devices[i + 1]);
                    }
                }
            }
        }
    }
}

/// The MAC address found for a host name is that of the first device that
/// carries this name, and none is found exactly when no device carries it.
pub proof fn lemma_mac_for_hostname_first_match(devices: Seq<NetworkDevice>, hostname: Seq<char>)
    ensures
        forall|i: int|
            0 <= i < devices.len() && names(#[trigger] devices[i], hostname) && (forall|j: int|
                0 <= j < i ==> !names(devices[j], hostname)) ==> mac_for_hostname(devices, hostname)
                == Some(devices[i].mac@),
        (mac_for_hostname(devices, hostname) is None) <==> (forall|i: int|
            0 <= i < devices.len() ==> !names(#[trigger] devices[i], hostname)),
    decreases devices.len(),
{
    if devices.len() > 0 {
        let rest = devices.drop_first();
        lemma_mac_for_hostname_first_match(rest, hostname);
        assert forall|i: int|
            0 <= i < devices.len() && names(#[trigger] devices[i], hostname) && (forall|j: int|
                0 <= j < i ==> !names(devices[j], hostname)) implies mac_for_hostname(devices, hostname)
            == Some(devices[i].mac@) by {
            if i > 0 {
                assert(!names(devices[0], hostname));
                assert(rest[i - 1] == devices[i]);
                assert forall|j: int| 0 <= j < i - 1 implies !names(rest[j], hostname) by {
                    assert(rest[j] == devices[j + 1]);
                }
            }
        }
        if !names(devices[0], hostname) {
            if forall|i: int| 0 <= i < rest.len() ==> !names(#[trigger] rest[i], hostname) {
                assert forall|i: int| 0 <= i < devices.len() implies !names(#[trigger] devices[i], hostname) by {
                    if i > 0 {
                        assert(rest[i - 1] == devices[i]);
                    }
                }
            }
            if forall|i: int| 0 <= i < devices.len() ==> !names(#[trigger] devices[i], hostname) {
                assert forall|i: int| 0 <= i < rest.len() implies !names(#[trigger] rest[i], hostname) by {
                    assert(rest[i] == devices[i + 1]);
                }
            }
        }
    }
}

/// Whether `device` carries the host name `hostname`.
pub open spec fn names(device: NetworkDevice, hostname: Seq<char>) -> bool {
    device.hostname matches Some(h) && h@ == hostname
}

} // verus!
