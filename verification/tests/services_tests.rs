use backend::mdns::{hostname_from_mdns_name, mdns_query_name};
use backend::services::{get_client_info, set_client_info, ClientErrorKind, CommonClient};
use backend::ip_common::{after_publish, monitor_step, same_devices, MonitorStep, NetDevice};
use backend::ip_server::RemoteTable;

#[test]
fn set_and_remove_clients() {
    let mut c = CommonClient::new();
    assert!(c.set_client("192.168.1.5".to_string(), String::new()).is_ok());
    assert_eq!(c.hostname_of("192.168.1.5"), Some(String::new()));
    assert!(c.set_client("192.168.1.5".to_string(), "laptop".to_string()).is_ok());
    assert_eq!(c.hostname_of("192.168.1.5"), Some("laptop".to_string()));
    assert_eq!(c.client_count(), 1);
    assert!(c.remove_client("192.168.1.5".to_string()).is_ok());
    assert_eq!(c.hostname_of("192.168.1.5"), None);
    assert!(c.remove_client("10.0.0.1".to_string()).is_ok());
    assert_eq!(c.client_count(), 0);
}

#[test]
fn default_table_is_empty() {
    let c = CommonClient::default();
    assert_eq!(c.client_count(), 0);
}

#[test]
fn mdns_names() {
    assert_eq!(mdns_query_name("192.168.99.105"), "192.168.99.105.in-addr.arpa.local.");
    assert_eq!(hostname_from_mdns_name("printer.local"), "printer");
    assert_eq!(hostname_from_mdns_name("a.local.local"), "a");
    assert_eq!(hostname_from_mdns_name("printer.local."), "printer.local.");
    assert_eq!(hostname_from_mdns_name(".local"), "");
}

#[test]
fn remote_table_read_after_write() {
    let mut t = RemoteTable::new();
    assert_eq!(
        t.remote_devices("10.0.0.5").unwrap_err(),
        "10.0.0.5 not in remote_addr".to_string()
    );
    t.add_remote(
        "10.0.0.5".to_string(),
        vec![NetDevice { device: "eth0".to_string(), mac: "aa".to_string(), ips: vec!["10.0.0.5/24".to_string()] }],
    );
    let ds = t.remote_devices("10.0.0.5").unwrap();
    assert_eq!(ds.len(), 1);
    assert_eq!(ds[0].device, "eth0");
    t.add_remote("10.0.0.5".to_string(), vec![]);
    assert!(t.remote_devices("10.0.0.5").unwrap().is_empty());
    assert!(t.remote_devices("10.0.0.6").is_err());
}

#[test]
fn monitor_decisions() {
    let dev = |ips: &[&str]| NetDevice {
        device: "eth0".to_string(),
        mac: "52:54:00:12:34:56".to_string(),
        ips: ips.iter().map(|s| s.to_string()).collect(),
    };
    let published = vec![dev(&["192.168.1.2/24"])];
    let same = vec![dev(&["192.168.1.2/24"])];
    let moved = vec![dev(&["192.168.1.3/24"])];
    assert!(same_devices(&published, &same));
    assert!(!same_devices(&published, &moved));
    assert!(!same_devices(&published, &vec![]));
    assert_eq!(monitor_step(false, &published, &same), MonitorStep::Reconnect);
    assert_eq!(monitor_step(true, &published, &same), MonitorStep::Wait);
    assert_eq!(monitor_step(true, &published, &moved), MonitorStep::Publish);
    assert_eq!(monitor_step(true, &vec![], &published), MonitorStep::Publish);
}

#[test]
fn publication_outcome() {
    let dev = |ip: &str| NetDevice {
        device: "eth0".to_string(),
        mac: "52:54:00:12:34:56".to_string(),
        ips: vec![ip.to_string()],
    };
    // Accepted: the sent interfaces become the published ones, no reconnect,
    // and the next round waits.
    let (published, reconnect) = after_publish(vec![dev("192.168.1.2/24")], vec![dev("192.168.1.3/24")], true);
    assert!(!reconnect);
    assert_eq!(published.len(), 1);
    assert_eq!(published[0].ips, vec!["192.168.1.3/24".to_string()]);
    assert_eq!(monitor_step(true, &published, &vec![dev("192.168.1.3/24")]), MonitorStep::Wait);
    // Refused: the published interfaces stay, and the client connects again.
    let (published, reconnect) = after_publish(vec![dev("192.168.1.2/24")], vec![dev("192.168.1.3/24")], false);
    assert!(reconnect);
    assert_eq!(published[0].ips, vec!["192.168.1.2/24".to_string()]);
    assert_eq!(monitor_step(true, &published, &vec![dev("192.168.1.3/24")]), MonitorStep::Publish);
}

#[test]
fn client_info_of_requests() {
    let mut c = CommonClient::new();
    let remote = Some(("192.168.1.5".to_string(), "192.168.1.5:50412".to_string()));
    assert!(set_client_info(&mut c, remote).is_ok());
    assert_eq!(c.hostname_of("192.168.1.5"), Some("192.168.1.5:50412".to_string()));
    let e = set_client_info(&mut c, None).unwrap_err();
    assert_eq!(e.kind, ClientErrorKind::AddrNotAvailable);
    assert_eq!(e.message, "remote_addr is None");
    assert_eq!(c.client_count(), 1);

    let remote = Some(("10.0.0.7".to_string(), "10.0.0.7:4000".to_string()));
    let (ip, addr) = get_client_info(&mut c, remote).unwrap();
    assert_eq!(ip, "10.0.0.7");
    assert_eq!(addr, "10.0.0.7:4000");
    assert_eq!(c.hostname_of("10.0.0.7"), Some(String::new()));
    assert_eq!(c.client_count(), 2);
    let e = get_client_info(&mut c, None).unwrap_err();
    assert_eq!(e.kind, ClientErrorKind::AddrNotAvailable);
    assert_eq!(e.message, "remote_addr is None");
    assert_eq!(c.client_count(), 2);
}
