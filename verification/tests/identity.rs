use pico_io_finder::identity::{
    is_pico_io_candidate, is_pico_io_service_name, service_key, IpAddress, ServiceRecord,
    TxtRecord,
};

fn service(name: &str, host: &str) -> ServiceRecord {
    ServiceRecord {
        name: name.to_owned(),
        host_name: host.to_owned(),
        port: 80,
        addresses: Vec::new(),
        txt_records: Vec::new(),
        interface_index: Some(4),
    }
}

#[test]
fn recognises_current_dns_sd_identity() {
    assert!(is_pico_io_candidate(&service(
        "Pico I/O Fruit Jam-CC6D4F",
        "pico-io-fruit-jam-cc6d4f.local"
    )));
}

#[test]
fn ignores_unrelated_http_services() {
    assert!(!is_pico_io_candidate(&service(
        "Office printer",
        "printer.local"
    )));
}

#[test]
fn recognises_only_pico_io_service_name_prefixes() {
    assert!(is_pico_io_service_name("Pico I/O Fruit Jam-CC6D4F"));
    assert!(is_pico_io_service_name("pico-io-bridge-244c29"));
    assert!(!is_pico_io_service_name("M33 - 5B51"));
    assert!(!is_pico_io_service_name("My pico-io test"));
}

#[test]
fn service_name_is_trimmed_and_case_folded() {
    assert!(is_pico_io_service_name("  \tPICO I/O Bridge\n"));
    assert!(is_pico_io_service_name("\u{3000}Pico-IO"));
    assert!(!is_pico_io_service_name("Pico I/O"));
    assert!(!is_pico_io_service_name("pico io"));
    assert!(!is_pico_io_service_name(""));
    assert!(!is_pico_io_service_name("   "));
}

#[test]
fn host_name_alone_makes_a_candidate() {
    assert!(is_pico_io_candidate(&service("Bench", "PICO-IO-bridge.local")));
    assert!(!is_pico_io_candidate(&service("Bench", "pico-io.local")));
}

#[test]
fn device_txt_value_makes_a_candidate() {
    let mut s = service("Bench", "bench.local");
    s.txt_records.push(TxtRecord { key: "path".to_owned(), value: Some(b"/".to_vec()) });
    s.txt_records.push(TxtRecord {
        key: "device".to_owned(),
        value: Some(b"pico-io-fruit-jam".to_vec()),
    });
    assert!(is_pico_io_candidate(&s));

    let mut upper = service("Bench", "bench.local");
    upper.txt_records.push(TxtRecord {
        key: "device".to_owned(),
        value: Some(b"PICO-IO-fruit-jam".to_vec()),
    });
    assert!(!is_pico_io_candidate(&upper));
}

#[test]
fn txt_lookup_takes_the_first_entry() {
    let mut s = service("Bench", "bench.local");
    s.txt_records.push(TxtRecord { key: "device".to_owned(), value: None });
    s.txt_records.push(TxtRecord {
        key: "device".to_owned(),
        value: Some(b"pico-io-bridge".to_vec()),
    });
    assert_eq!(s.txt("device"), None);
    assert!(!is_pico_io_candidate(&s));

    let mut t = service("Bench", "bench.local");
    t.txt_records.push(TxtRecord { key: "empty".to_owned(), value: Some(Vec::new()) });
    assert_eq!(t.txt("empty"), Some(&Vec::new()));
    assert_eq!(t.txt("missing"), None);
}

#[test]
fn service_key_is_name_and_interface() {
    let mut s = service("Pico I/O Bridge", "pico-io-bridge.local");
    s.addresses.push(IpAddress::V4([10, 0, 0, 2]));
    let (name, interface) = service_key(&s);
    assert_eq!(name, "Pico I/O Bridge");
    assert_eq!(interface, Some(4));
}
