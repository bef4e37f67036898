use backend::ip_common;
use backend::ip_manager::{
    get_hostname_from_config_ip, get_mac_by_hostname, get_mac_by_ip, is_ignored_interface,
    parse_ip_addr, parse_ipv4_addr, parse_ipv6_addr, parse_mac_addr, parse_net_devices,
};
use backend::ipv4::Ipv4;
use backend::network_scanner::NetworkDevice;

const LINK_SHOW: &str = "1: lo: <LOOPBACK,UP,LOWER_UP> mtu 65536 qdisc noqueue state UNKNOWN mode DEFAULT group default qlen 1000
    link/loopback 00:00:00:00:00:00 brd 00:00:00:00:00:00
2: eth0: <BROADCAST,MULTICAST,UP,LOWER_UP> mtu 1500 qdisc fq_codel state UP mode DEFAULT group default qlen 1000
    link/ether 52:54:00:12:34:56 brd ff:ff:ff:ff:ff:ff
3: veth12ab@if4: <BROADCAST,MULTICAST,UP,LOWER_UP> mtu 1500 qdisc noqueue master docker0 state UP mode DEFAULT group default
    link/ether 0a:1b:2c:3d:4e:5f brd ff:ff:ff:ff:ff:ff link-netnsid 0
";

const ADDR_SHOW: &str = "2: eth0: <BROADCAST,MULTICAST,UP,LOWER_UP> mtu 1500 qdisc fq_codel state UP group default qlen 1000
    link/ether 52:54:00:12:34:56 brd ff:ff:ff:ff:ff:ff
    inet 192.168.99.2/24 brd 192.168.99.255 scope global eth0
       valid_lft forever preferred_lft forever
    inet 10.10.99.2/16 scope global secondary eth0
       valid_lft forever preferred_lft forever
    inet6 fe80::5054:ff:fe12:3456/64 scope link
       valid_lft forever preferred_lft forever
";

fn strings(v: &[&str]) -> Vec<String> {
    v.iter().map(|s| s.to_string()).collect()
}

#[test]
fn interface_names_from_link_show() {
    assert_eq!(parse_net_devices(LINK_SHOW), strings(&["lo", "eth0", "veth12ab@if4"]));
    assert_eq!(ip_common::parse_net_devices(LINK_SHOW), strings(&["lo", "eth0", "veth12ab@if4"]));
}

#[test]
fn interface_names_of_empty_output() {
    assert_eq!(parse_net_devices(""), Vec::<String>::new());
}

#[test]
fn ipv4_addresses_without_prefix() {
    assert_eq!(parse_ipv4_addr(ADDR_SHOW), strings(&["192.168.99.2", "10.10.99.2"]));
}

#[test]
fn ipv4_addresses_with_prefix() {
    assert_eq!(ip_common::parse_ipv4_addr(ADDR_SHOW), strings(&["192.168.99.2/24", "10.10.99.2/16"]));
}

#[test]
fn ipv6_addresses() {
    assert_eq!(parse_ipv6_addr(ADDR_SHOW), strings(&["fe80::5054:ff:fe12:3456/64"]));
}

#[test]
fn all_addresses_for_the_service() {
    assert_eq!(
        ip_common::parse_ip_addr(ADDR_SHOW),
        strings(&["192.168.99.2/24", "10.10.99.2/16", "fe80::5054:ff:fe12:3456/64"])
    );
}

#[test]
fn parsed_ipv4_addresses() {
    assert_eq!(parse_ip_addr(ADDR_SHOW), vec![Ipv4::new(192, 168, 99, 2), Ipv4::new(10, 10, 99, 2)]);
}

#[test]
fn hardware_address() {
    assert_eq!(parse_mac_addr(ADDR_SHOW), "52:54:00:12:34:56");
}

#[test]
fn hardware_addresses_run_together() {
    assert_eq!(
        parse_mac_addr(LINK_SHOW),
        "00:00:00:00:00:0052:54:00:12:34:560a:1b:2c:3d:4e:5f"
    );
}

#[test]
fn tabs_count_as_leading_whitespace() {
    assert_eq!(parse_ipv4_addr("\t inet 1.2.3.4/8 scope host"), strings(&["1.2.3.4"]));
    assert_eq!(parse_ipv4_addr("inet6 ::1/128"), Vec::<String>::new());
}

#[test]
fn ignored_interfaces() {
    for name in ["lo", "docker0", "lxcbr0", "virbr0", "easytier0", "veth12ab@if4", "br-3f2a"] {
        assert!(is_ignored_interface(name), "{}", name);
    }
    for name in ["eth0", "lo0", "wlan0", "enp3s0", "docker1"] {
        assert!(!is_ignored_interface(name), "{}", name);
    }
}

fn neighbours() -> Vec<NetworkDevice> {
    vec![
        NetworkDevice { ip: Ipv4::new(192, 168, 99, 1), mac: "aa:aa:aa:aa:aa:aa".to_string(), hostname: None },
        NetworkDevice {
            ip: Ipv4::new(192, 168, 99, 12),
            mac: "1C:7E:51:A1:50:EB".to_string(),
            hostname: Some("nas-eth".to_string()),
        },
        NetworkDevice {
            ip: Ipv4::new(192, 168, 99, 12),
            mac: "bb:bb:bb:bb:bb:bb".to_string(),
            hostname: Some("other".to_string()),
        },
    ]
}

#[test]
fn mac_by_ip_takes_first_match() {
    assert_eq!(get_mac_by_ip(&neighbours(), &Ipv4::new(192, 168, 99, 12)), Some("1C:7E:51:A1:50:EB".to_string()));
    assert_eq!(get_mac_by_ip(&neighbours(), &Ipv4::new(192, 168, 99, 2)), None);
}

#[test]
fn mac_by_hostname() {
    assert_eq!(get_mac_by_hostname(&neighbours(), "other"), Some("bb:bb:bb:bb:bb:bb".to_string()));
    assert_eq!(get_mac_by_hostname(&neighbours(), "nas"), None);
}

#[test]
fn hostname_from_config() {
    assert_eq!(get_hostname_from_config_ip(&Ipv4::new(192, 168, 99, 12), &neighbours()), Some("nas-eth".to_string()));
    assert_eq!(get_hostname_from_config_ip(&Ipv4::new(192, 168, 99, 1), &neighbours()), None);
    assert_eq!(get_hostname_from_config_ip(&Ipv4::new(1, 1, 1, 1), &neighbours()), None);
}
