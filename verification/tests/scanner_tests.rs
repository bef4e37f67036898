use backend::ip_manager::NetDevice;
use backend::ipv4::Ipv4;
use backend::network_scanner::{parse_arp_output, parse_getent_output, parse_nslookup_output, scan_targets};

fn device(ips: Vec<Ipv4>) -> NetDevice {
    NetDevice { device_name: "eth0".to_string(), mac: "52:54:00:12:34:56".to_string(), ips }
}

#[test]
fn targets_skip_own_address() {
    let own = Ipv4::new(192, 168, 99, 2);
    let t = scan_targets(&vec![device(vec![own])]);
    assert_eq!(t.len(), 253);
    assert_eq!(t[0], Ipv4::new(192, 168, 99, 1));
    assert_eq!(t[1], Ipv4::new(192, 168, 99, 3));
    assert_eq!(t[252], Ipv4::new(192, 168, 99, 254));
    assert!(!t.contains(&own));
    assert!(t.iter().all(|x| x.a == 192 && x.b == 168 && x.c == 99 && x.d >= 1 && x.d <= 254));
}

#[test]
fn targets_of_network_address() {
    let t = scan_targets(&vec![device(vec![Ipv4::new(10, 0, 0, 0)])]);
    assert_eq!(t.len(), 254);
}

#[test]
fn targets_of_several_addresses_in_order() {
    let t = scan_targets(&vec![
        device(vec![Ipv4::new(192, 168, 1, 10), Ipv4::new(10, 1, 2, 255)]),
        device(vec![]),
        device(vec![Ipv4::new(172, 16, 0, 1)]),
    ]);
    assert_eq!(t.len(), 253 + 254 + 253);
    assert_eq!(t[0], Ipv4::new(192, 168, 1, 1));
    assert_eq!(t[253], Ipv4::new(10, 1, 2, 1));
    assert_eq!(t[253 + 254], Ipv4::new(172, 16, 0, 2));
}

#[test]
fn targets_of_no_interfaces() {
    assert!(scan_targets(&vec![]).is_empty());
}

const ARP: &str = "Address                  HWtype  HWaddress           Flags Mask            Iface
192.168.99.1             ether   aa:bb:cc:dd:ee:ff   C                     eth0
";

#[test]
fn arp_reply() {
    assert_eq!(parse_arp_output(ARP, &Ipv4::new(192, 168, 99, 1)), Some("aa:bb:cc:dd:ee:ff".to_string()));
    assert_eq!(parse_arp_output(ARP, &Ipv4::new(192, 168, 99, 7)), None);
}

#[test]
fn arp_reply_without_entry() {
    let out = "192.168.99.9 (192.168.99.9) -- no entry\n";
    assert_eq!(parse_arp_output(out, &Ipv4::new(192, 168, 99, 9)), None);
    assert_eq!(parse_arp_output("192.168.99.9\n", &Ipv4::new(192, 168, 99, 9)), None);
}

#[test]
fn arp_reply_incomplete_entry() {
    let out = "Address HWtype HWaddress Flags Mask Iface\n192.168.99.7 (incomplete) eth0\n";
    assert_eq!(parse_arp_output(out, &Ipv4::new(192, 168, 99, 7)), None);
    // A later line that does give an address is taken.
    let out2 = "192.168.99.7 (incomplete) eth0\n192.168.99.7 ether 11:22:33:44:55:66 C eth1\n";
    assert_eq!(parse_arp_output(out2, &Ipv4::new(192, 168, 99, 7)), Some("11:22:33:44:55:66".to_string()));
}

#[test]
fn getent_reply() {
    assert_eq!(
        parse_getent_output("192.168.99.1\t_gateway\n", &Ipv4::new(192, 168, 99, 1)),
        Some("_gateway".to_string())
    );
    assert_eq!(parse_getent_output("192.168.99.10    nas\n", &Ipv4::new(192, 168, 99, 1)), None);
    assert_eq!(parse_getent_output("", &Ipv4::new(192, 168, 99, 1)), None);
}

#[test]
fn getent_reply_with_crlf() {
    assert_eq!(
        parse_getent_output("192.168.99.1 router\r\n", &Ipv4::new(192, 168, 99, 1)),
        Some("router".to_string())
    );
}

#[test]
fn nslookup_reply() {
    let out = "1.99.168.192.in-addr.arpa\tname = _gateway.\n\nAuthoritative answers can be found from:\n";
    assert_eq!(parse_nslookup_output(out), Some("_gateway.".to_string()));
}

#[test]
fn nslookup_reply_with_quotes() {
    assert_eq!(parse_nslookup_output("x name = \"host\"\n"), Some("host".to_string()));
}

#[test]
fn nslookup_without_name() {
    assert_eq!(parse_nslookup_output("** server can't find 1.99.168.192.in-addr.arpa: NXDOMAIN\n"), None);
    assert_eq!(parse_nslookup_output("name = x\n"), None);
}
