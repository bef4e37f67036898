use backend::ipv4::Ipv4;
use backend::network_scanner::NetworkDevice;
use backend::wol::{build_magic_packet, parse_mac_address, validate_mac_address, wol_hostname, wol_ip, wol_mac};

const NAS: [u8; 6] = [0x1C, 0x7E, 0x51, 0xA1, 0x50, 0xEB];

fn packet_for(mac: [u8; 6]) -> Vec<u8> {
    let mut p = vec![0xFFu8; 6];
    for _ in 0..16 {
        p.extend_from_slice(&mac);
    }
    p
}

fn devices() -> Vec<NetworkDevice> {
    vec![
        NetworkDevice {
            ip: Ipv4::new(192, 168, 99, 12),
            mac: "1C:7E:51:A1:50:EB".to_string(),
            hostname: Some("nas-eth".to_string()),
        },
        NetworkDevice {
            ip: Ipv4::new(192, 168, 99, 3),
            mac: "3C:7C:3F:4C:C3:CA".to_string(),
            hostname: Some("WIN".to_string()),
        },
        NetworkDevice {
            ip: Ipv4::new(192, 168, 99, 14),
            mac: "40:EC:99:21:FE:E4".to_string(),
            hostname: None,
        },
    ]
}

#[test]
fn mac_with_colons() {
    assert_eq!(parse_mac_address("1C:7E:51:A1:50:EB"), Ok(NAS));
}

#[test]
fn mac_with_dashes_and_lower_case() {
    assert_eq!(parse_mac_address("1c-7e-51-a1-50-eb"), Ok(NAS));
}

#[test]
fn mac_without_separators() {
    assert_eq!(parse_mac_address("1C7E51A150EB"), Ok(NAS));
}

#[test]
fn mac_with_mixed_separators() {
    assert_eq!(parse_mac_address("1C:7E-51:A1-50:EB"), Ok(NAS));
}

#[test]
fn mac_too_short() {
    assert_eq!(parse_mac_address("1C:7E:51"), Err("无效的MAC地址长度: 1C:7E:51".to_string()));
}

#[test]
fn mac_too_long() {
    assert_eq!(
        parse_mac_address("1C:7E:51:A1:50:EB:00"),
        Err("无效的MAC地址长度: 1C:7E:51:A1:50:EB:00".to_string())
    );
}

#[test]
fn mac_empty() {
    assert_eq!(parse_mac_address(""), Err("无效的MAC地址长度: ".to_string()));
}

#[test]
fn mac_not_hex() {
    assert_eq!(
        parse_mac_address("GG:HH:II:JJ:KK:LL"),
        Err("无效的MAC地址: GG:HH:II:JJ:KK:LL".to_string())
    );
}

#[test]
fn mac_pairs_with_plus_sign() {
    // Both characters of a pair must be hexadecimal digits: a sign is no digit.
    assert_eq!(
        parse_mac_address("+1+2+3+4+5+6"),
        Err("无效的MAC地址: +1+2+3+4+5+6".to_string())
    );
    assert_eq!(
        validate_mac_address("+A:11:22:33:44:55"),
        Err("无效的MAC地址: +A:11:22:33:44:55".to_string())
    );
}

#[test]
fn mac_non_ascii_twelve_bytes() {
    // Six two-byte characters pass the length check and fail as digits.
    assert_eq!(parse_mac_address("ÄÄÄÄÄÄ"), Err("无效的MAC地址: ÄÄÄÄÄÄ".to_string()));
}

#[test]
fn mac_read_after_upper_casing() {
    // U+FB00 (ﬀ) becomes "FF" in upper case: the address reads only after the conversion.
    assert_eq!(parse_mac_address("ﬀ:ﬀ:ﬀ:ﬀ:ﬀ:ﬀ"), Ok([0xFF; 6]));
}

#[test]
fn validate_accepts_and_rejects() {
    assert_eq!(validate_mac_address("00:11:22:33:44:55"), Ok(()));
    assert_eq!(validate_mac_address("00:11:22"), Err("无效的MAC地址长度: 00:11:22".to_string()));
}

#[test]
fn magic_packet_layout() {
    let p = build_magic_packet(NAS);
    assert_eq!(p.len(), 102);
    assert_eq!(&p[..6], &[0xFF; 6]);
    for k in 0..16 {
        assert_eq!(&p[6 + 6 * k..12 + 6 * k], &NAS);
    }
    assert_eq!(p, packet_for(NAS));
}

#[test]
fn wol_mac_builds_packet() {
    assert_eq!(wol_mac("AA:BB:CC:DD:EE:FF"), Ok(packet_for([0xAA, 0xBB, 0xCC, 0xDD, 0xEE, 0xFF])));
}

#[test]
fn wol_mac_reports_bad_address() {
    assert_eq!(wol_mac("bad"), Err("无效的MAC地址长度: bad".to_string()));
    assert_eq!(wol_mac("ZZZZZZZZZZZZ"), Err("无效的MAC地址: ZZZZZZZZZZZZ".to_string()));
}

#[test]
fn wol_ip_finds_device() {
    assert_eq!(wol_ip(&devices(), "192.168.99.12"), Ok(packet_for(NAS)));
}

#[test]
fn wol_ip_unknown_address() {
    assert_eq!(
        wol_ip(&devices(), "192.168.99.13"),
        Err("无法找到IP 192.168.99.13 对应的MAC地址".to_string())
    );
}

#[test]
fn wol_ip_invalid_address() {
    assert_eq!(wol_ip(&devices(), "300.1.1.1"), Err("无效的IP地址: 300.1.1.1".to_string()));
    assert_eq!(wol_ip(&devices(), "nas-eth"), Err("无效的IP地址: nas-eth".to_string()));
}

#[test]
fn wol_ip_device_with_bad_mac() {
    let devs = vec![NetworkDevice {
        ip: Ipv4::new(10, 0, 0, 1),
        mac: "not-a-mac".to_string(),
        hostname: None,
    }];
    assert_eq!(wol_ip(&devs, "10.0.0.1"), Err("无效的MAC地址长度: not-a-mac".to_string()));
}

#[test]
fn wol_hostname_finds_device() {
    assert_eq!(
        wol_hostname(&devices(), "WIN"),
        Ok(packet_for([0x3C, 0x7C, 0x3F, 0x4C, 0xC3, 0xCA]))
    );
}

#[test]
fn wol_hostname_unknown() {
    assert_eq!(
        wol_hostname(&devices(), "printer"),
        Err("无法找到主机名 printer 对应的MAC地址".to_string())
    );
}

#[test]
fn mac_text_reads_back() {
    for b in [[0x1Cu8, 0x7E, 0x51, 0xA1, 0x50, 0xEB], [0, 0, 0, 0, 0, 0], [0xFF, 0x0A, 0xB0, 0x09, 0x90, 0xFE]] {
        let upper = format!("{:02X}:{:02X}:{:02X}:{:02X}:{:02X}:{:02X}", b[0], b[1], b[2], b[3], b[4], b[5]);
        let lower = format!("{:02x}-{:02x}-{:02x}-{:02x}-{:02x}-{:02x}", b[0], b[1], b[2], b[3], b[4], b[5]);
        let bare = format!("{:02X}{:02X}{:02X}{:02X}{:02X}{:02X}", b[0], b[1], b[2], b[3], b[4], b[5]);
        assert_eq!(parse_mac_address(&upper), Ok(b));
        assert_eq!(parse_mac_address(&lower), Ok(b));
        assert_eq!(parse_mac_address(&bare), Ok(b));
    }
}
