use pico_io_finder::model::{is_usable_address, same_device, ApiStatus, Device};

fn status_from_json(text: &str) -> ApiStatus {
    let value: serde_json::Value = serde_json::from_str(text).unwrap();
    let field = |name: &str| -> String {
        value.get(name).and_then(|v| v.as_str()).unwrap_or("").to_owned()
    };
    assert!(value.get("device").is_some() && value.get("serial").is_some());
    ApiStatus {
        device: field("device"),
        manufacturer: field("manufacturer"),
        board: field("board"),
        serial: field("serial"),
        firmware: field("firmware"),
        network: field("network"),
    }
}

fn fruit_jam(address: [u8; 4], port: u16) -> Device {
    Device {
        service_name: "Pico I/O Fruit Jam-CC6D4F".to_owned(),
        host_name: "pico-io-fruit-jam-cc6d4f.local".to_owned(),
        address,
        port,
        interface_index: Some(4),
        status: status_from_json(
            r#"{"device":"pico-io-fruit-jam","board":"Adafruit Fruit Jam","serial":"E6AF","firmware":"0.1.0","network":"cdc-ncm"}"#,
        ),
    }
}

#[test]
fn accepts_current_product_identity() {
    let status: ApiStatus = status_from_json(
        r#"{"device":"pico-io-fruit-jam","board":"Adafruit Fruit Jam","serial":"E6AF","firmware":"0.1.0","network":"cdc-ncm"}"#,
    );

    assert!(status.is_pico_io());
}

#[test]
fn rejects_unrelated_http_service() {
    let status: ApiStatus = status_from_json(r#"{"device":"printer","serial":"123"}"#);

    assert!(!status.is_pico_io());
}

#[test]
fn rejects_incomplete_identity() {
    let status: ApiStatus = status_from_json(
        r#"{"device":"pico-io-fruit-jam","serial":"E6AF","firmware":"0.1.0"}"#,
    );

    assert!(!status.is_pico_io());
}

#[test]
fn accepts_bridge_identity_and_rejects_missing_serial_or_firmware() {
    let mut status = status_from_json(
        r#"{"device":"pico-io-bridge","board":"RP2350","serial":"244C29","firmware":"1.2.0"}"#,
    );
    assert!(status.is_pico_io());
    status.firmware.clear();
    assert!(!status.is_pico_io());
    let no_serial = status_from_json(
        r#"{"device":"pico-io-bridge","board":"RP2350","serial":"","firmware":"1.2.0"}"#,
    );
    assert!(!no_serial.is_pico_io());
    let other_case = status_from_json(
        r#"{"device":"Pico-IO-Bridge","board":"RP2350","serial":"1","firmware":"1"}"#,
    );
    assert!(!other_case.is_pico_io());
}

#[test]
fn rejects_addresses_that_should_not_be_probed() {
    assert!(!is_usable_address([0, 0, 0, 0]));
    assert!(!is_usable_address([127, 0, 0, 1]));
    assert!(!is_usable_address([255, 255, 255, 255]));
    assert!(!is_usable_address([224, 0, 0, 1]));
    assert!(is_usable_address([10, 97, 225, 1]));
}

#[test]
fn address_edges() {
    assert!(!is_usable_address([127, 255, 255, 254]));
    assert!(!is_usable_address([239, 255, 255, 250]));
    assert!(is_usable_address([240, 0, 0, 1]));
    assert!(is_usable_address([223, 255, 255, 255]));
    assert!(is_usable_address([0, 0, 0, 1]));
    assert!(is_usable_address([255, 255, 255, 254]));
}

#[test]
fn origin_is_numeric_and_omits_port_80() {
    let device = fruit_jam([10, 97, 225, 1], 80);
    assert_eq!(device.origin(), "http://10.97.225.1");
    assert_eq!(device.open_url(), "http://10.97.225.1/");
    let other = fruit_jam([192, 168, 0, 255], 8080);
    assert_eq!(other.origin(), "http://192.168.0.255:8080");
    assert_eq!(other.open_url(), "http://192.168.0.255:8080/");
    let zero = fruit_jam([1, 0, 0, 9], 65535);
    assert_eq!(zero.origin(), "http://1.0.0.9:65535");
}

#[test]
fn key_is_the_serial() {
    let device = fruit_jam([10, 97, 225, 1], 80);
    assert_eq!(device.key(), "E6AF");
}

#[test]
fn same_device_compares_every_field() {
    let a = fruit_jam([10, 97, 225, 1], 80);
    let b = a.clone();
    assert!(same_device(&a, &b));
    let mut c = a.clone();
    c.status.network = "wifi".to_owned();
    assert!(!same_device(&a, &c));
    let mut d = a.clone();
    d.address = [10, 97, 225, 2];
    assert!(!same_device(&a, &d));
    let mut e = a.clone();
    e.interface_index = None;
    assert!(!same_device(&a, &e));
}

#[test]
fn equality_is_field_by_field() {
    let a = fruit_jam([10, 97, 225, 1], 80);
    assert_eq!(a, a.clone());
    let mut b = a.clone();
    b.host_name.push('x');
    assert_ne!(a, b);
    assert_eq!(a.status, a.status.clone());
    let r1 = pico_io_finder::RemovedDevice { service_name: "S".to_owned(), interface_index: None };
    let r2 = pico_io_finder::RemovedDevice { service_name: "S".to_owned(), interface_index: Some(1) };
    assert_ne!(r1, r2);
    assert_eq!(r1, r1.clone());
}
