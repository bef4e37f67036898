use backend::ipv4::Ipv4;
use backend::network_scanner::NetworkDevice;
use backend::server::{
    default_ip, default_json_file, device_infos, wake_device, Commands, Flags, WOLServer, WakeError,
    WakeRequest, PORT,
};

fn packet_for(mac: [u8; 6]) -> Vec<u8> {
    let mut p = vec![0xFFu8; 6];
    for _ in 0..16 {
        p.extend_from_slice(&mac);
    }
    p
}

fn neighbours() -> Vec<NetworkDevice> {
    vec![NetworkDevice {
        ip: Ipv4::new(192, 168, 99, 12),
        mac: "1C:7E:51:A1:50:EB".to_string(),
        hostname: Some("nas-eth".to_string()),
    }]
}

fn request(mac: Option<&str>, ip: Option<&str>, hostname: Option<&str>) -> WakeRequest {
    WakeRequest {
        mac: mac.map(|s| s.to_string()),
        ip: ip.map(|s| s.to_string()),
        hostname: hostname.map(|s| s.to_string()),
    }
}

#[test]
fn server_settings() {
    let w = WOLServer::new("0.0.0.0".to_string(), 8080, "/tmp/mac.json".to_string());
    assert_eq!(w.ip(), "0.0.0.0");
    assert_eq!(w.port(), 8080);
    assert_eq!(w.json_file(), "/tmp/mac.json");
}

#[test]
fn default_settings() {
    assert_eq!(default_ip(), "[::]");
    assert_eq!(PORT, 10086);
    assert_eq!(default_json_file(), "/var/lib/wol/mac.json");
    let f = Flags { command: Some(Commands::Start { ip: default_ip(), port: PORT, json_file: default_json_file() }) };
    assert!(matches!(f.command, Some(Commands::Start { port: 10086, .. })));
}

#[test]
fn device_list_for_the_page() {
    let infos = device_infos(&vec![
        NetworkDevice { ip: Ipv4::new(192, 168, 99, 3), mac: "3C:7C:3F:4C:C3:CA".to_string(), hostname: Some("WIN".to_string()) },
        NetworkDevice { ip: Ipv4::new(10, 0, 0, 14), mac: "40:EC:99:21:FE:E4".to_string(), hostname: None },
    ]);
    assert_eq!(infos.len(), 2);
    assert_eq!(infos[0].ip, "192.168.99.3");
    assert_eq!(infos[0].mac, "3C:7C:3F:4C:C3:CA");
    assert_eq!(infos[0].hostname, Some("WIN".to_string()));
    assert_eq!(infos[1].ip, "10.0.0.14");
    assert_eq!(infos[1].hostname, None);
}

#[test]
fn wake_by_mac() {
    let a = wake_device(&request(Some("1C:7E:51:A1:50:EB"), Some("1.1.1.1"), None), neighbours(), vec![]).unwrap();
    assert_eq!(a.packet, packet_for([0x1C, 0x7E, 0x51, 0xA1, 0x50, 0xEB]));
    assert_eq!(a.message, "成功发送唤醒包到MAC地址: 1C:7E:51:A1:50:EB");
}

#[test]
fn wake_by_ip() {
    let a = wake_device(&request(None, Some("192.168.99.12"), Some("x")), neighbours(), vec![]).unwrap();
    assert_eq!(a.packet, packet_for([0x1C, 0x7E, 0x51, 0xA1, 0x50, 0xEB]));
    assert_eq!(a.message, "成功唤醒IP地址: 192.168.99.12");
}

#[test]
fn wake_by_hostname() {
    let a = wake_device(&request(None, None, Some("nas-eth")), neighbours(), vec![]).unwrap();
    assert_eq!(a.message, "成功唤醒主机: nas-eth");
}

#[test]
fn wake_failures() {
    assert_eq!(wake_device(&request(None, None, None), neighbours(), vec![]).unwrap_err(), WakeError::BadRequest);
    assert_eq!(
        wake_device(&request(Some("xx"), None, None), neighbours(), vec![]).unwrap_err(),
        WakeError::InternalServerError
    );
    assert_eq!(
        wake_device(&request(None, Some("192.168.99.99"), None), neighbours(), vec![]).unwrap_err(),
        WakeError::InternalServerError
    );
    assert_eq!(
        wake_device(&request(None, None, Some("ghost")), neighbours(), vec![]).unwrap_err(),
        WakeError::InternalServerError
    );
}

#[test]
fn wake_listed_device_that_was_not_found() {
    // The README's mac.json lists nas-eth; the scan did not see it (asleep).
    let listed = vec![
        NetworkDevice {
            ip: Ipv4::new(192, 168, 99, 12),
            mac: "1C:7E:51:A1:50:EB".to_string(),
            hostname: Some("nas-eth".to_string()),
        },
        NetworkDevice {
            ip: Ipv4::new(192, 168, 99, 3),
            mac: "3C:7C:3F:4C:C3:CA".to_string(),
            hostname: Some("WIN".to_string()),
        },
    ];
    let a = wake_device(&request(None, Some("192.168.99.12"), None), vec![], listed.clone()).unwrap();
    assert_eq!(a.packet, packet_for([0x1C, 0x7E, 0x51, 0xA1, 0x50, 0xEB]));
    assert_eq!(a.message, "成功唤醒IP地址: 192.168.99.12");
    let a = wake_device(&request(None, None, Some("WIN")), vec![], listed.clone()).unwrap();
    assert_eq!(a.packet, packet_for([0x3C, 0x7C, 0x3F, 0x4C, 0xC3, 0xCA]));
    assert_eq!(a.message, "成功唤醒主机: WIN");
    // A device the scan found is taken before the listed one.
    let scanned = vec![NetworkDevice {
        ip: Ipv4::new(192, 168, 99, 12),
        mac: "AA:BB:CC:DD:EE:FF".to_string(),
        hostname: None,
    }];
    let a = wake_device(&request(None, Some("192.168.99.12"), None), scanned, listed).unwrap();
    assert_eq!(a.packet, packet_for([0xAA, 0xBB, 0xCC, 0xDD, 0xEE, 0xFF]));
}
