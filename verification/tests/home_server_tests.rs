use backend::home_server::{add_device, get_devices, remove_device, send_wol, update_device_status, Device};

fn device(name: &str, mac: &str, status: &str) -> Device {
    Device { name: name.to_string(), mac: mac.to_string(), ip: None, status: status.to_string() }
}

fn macs(ds: &[Device]) -> Vec<String> {
    ds.iter().map(|d| d.mac.clone()).collect()
}

fn sample() -> Vec<Device> {
    vec![
        device("Living Room PC", "00:11:22:33:44:55", "offline"),
        device("Office Server", "AA:BB:CC:DD:EE:FF", "online"),
        device("Gaming Rig", "11:22:33:44:55:66", "offline"),
    ]
}

#[test]
fn add_new_device() {
    let mut ds = sample();
    assert_eq!(add_device(&mut ds, device("NAS", "77:88:99:AA:BB:CC", "offline")), Ok(()));
    assert_eq!(ds.len(), 4);
    assert_eq!(ds[3].name, "NAS");
}

#[test]
fn add_duplicate_mac() {
    let mut ds = sample();
    assert_eq!(
        add_device(&mut ds, device("Copy", "AA:BB:CC:DD:EE:FF", "x")),
        Err("Device with this MAC address already exists".to_string())
    );
    assert_eq!(macs(&ds), macs(&sample()));
}

#[test]
fn remove_existing_device() {
    let mut ds = sample();
    assert_eq!(remove_device(&mut ds, "AA:BB:CC:DD:EE:FF"), Ok(()));
    assert_eq!(macs(&ds), vec!["00:11:22:33:44:55".to_string(), "11:22:33:44:55:66".to_string()]);
}

#[test]
fn remove_missing_device() {
    let mut ds = sample();
    assert_eq!(remove_device(&mut ds, "FF:FF:FF:FF:FF:FF"), Err("Device not found".to_string()));
    assert_eq!(ds.len(), 3);
}

#[test]
fn remove_undoes_add() {
    let mut ds = sample();
    add_device(&mut ds, device("NAS", "77:88:99:AA:BB:CC", "offline")).unwrap();
    remove_device(&mut ds, "77:88:99:AA:BB:CC").unwrap();
    assert_eq!(macs(&ds), macs(&sample()));
}

#[test]
fn update_status() {
    let mut ds = sample();
    assert_eq!(update_device_status(&mut ds, "11:22:33:44:55:66", "online".to_string()), Ok(()));
    assert_eq!(ds[2].status, "online");
    assert_eq!(ds[0].status, "offline");
    assert_eq!(
        update_device_status(&mut ds, "nope", "online".to_string()),
        Err("Device not found".to_string())
    );
}

#[test]
fn devices_listed() {
    assert_eq!(macs(&get_devices(&sample())), macs(&sample()));
}

#[test]
fn wol_request_answers() {
    let r = send_wol("00:11:22:33:44:55", None).unwrap();
    assert!(r.success);
    assert_eq!(r.message, "✨ Magic packet sent to 00:11:22:33:44:55 (broadcast: 255.255.255.255)");
    let r = send_wol("001122334455", Some("192.168.1.255".to_string())).unwrap();
    assert_eq!(r.message, "✨ Magic packet sent to 001122334455 (broadcast: 192.168.1.255)");
    assert_eq!(send_wol("00:11:22", None).unwrap_err(), "Invalid MAC address format");
    // Twelve characters are not enough: they must be hexadecimal digits.
    assert_eq!(send_wol("ZZ:ZZ:ZZ:ZZ:ZZ:ZZ", None).unwrap_err(), "Invalid MAC address format");
    assert_eq!(send_wol("zz:zz:zz:zz:zz:zz", None).unwrap_err(), "Invalid MAC address format");
    assert_eq!(send_wol("XX:XX:XX:XX:XX:XX", None).unwrap_err(), "Invalid MAC address format");
    assert!(send_wol("aa-bb-cc-dd-ee-ff", None).is_ok());
}
