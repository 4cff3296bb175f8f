use pico_io_finder::discovery::{browse_error_warning, Discovery, DiscoveryEvent, LIVENESS_FAILURES};
use pico_io_finder::identity::{IpAddress, ServiceRecord};
use pico_io_finder::model::{ApiStatus, Device};

fn service(name: &str, interface: Option<u32>) -> ServiceRecord {
    ServiceRecord {
        name: name.to_owned(),
        host_name: "host.local".to_owned(),
        port: 80,
        addresses: vec![IpAddress::V4([10, 0, 0, 2])],
        txt_records: Vec::new(),
        interface_index: interface,
    }
}

fn device(name: &str, serial: &str) -> Device {
    Device {
        service_name: name.to_owned(),
        host_name: "host.local".to_owned(),
        address: [10, 0, 0, 2],
        port: 80,
        interface_index: Some(1),
        status: ApiStatus {
            device: "pico-io-bridge".to_owned(),
            manufacturer: String::new(),
            board: "RP2350".to_owned(),
            serial: serial.to_owned(),
            firmware: "1.0".to_owned(),
            network: String::new(),
        },
    }
}

const NAME: &str = "Pico I/O Bridge-1";

#[test]
fn unrelated_services_are_not_tracked() {
    let mut d = Discovery::new();
    d.on_service_found(service("Office printer", Some(1)));
    assert!(!d.has_candidates());
    assert!(d.on_service_removed("Office printer".to_owned(), Some(1)).is_none());
}

#[test]
fn found_then_removed_reports_removal_once() {
    let mut d = Discovery::new();
    d.on_service_found(service(NAME, Some(1)));
    d.on_service_found(service(NAME, Some(1)));
    assert_eq!(d.services().len(), 1);
    d.on_service_found(service(NAME, Some(2)));
    assert_eq!(d.services().len(), 2);
    match d.on_service_removed(NAME.to_owned(), Some(1)) {
        Some(DiscoveryEvent::Removed(r)) => {
            assert_eq!(r.service_name, NAME);
            assert_eq!(r.interface_index, Some(1));
        }
        _ => panic!("expected a removal"),
    }
    assert!(d.on_service_removed(NAME.to_owned(), Some(1)).is_none());
    assert_eq!(d.services().len(), 1);
    assert_eq!(d.services()[0].interface_index, Some(2));
}

#[test]
fn a_refound_service_keeps_its_devices() {
    let mut d = Discovery::new();
    d.on_service_found(service(NAME, Some(1)));
    let events = d.on_probe_result(&service(NAME, Some(1)), Ok(vec![device(NAME, "A")]));
    assert_eq!(events.len(), 1);
    let mut moved = service(NAME, Some(1));
    moved.port = 8080;
    d.on_service_found(moved);
    assert_eq!(d.services()[0].port, 8080);
    let again = d.on_probe_result(&service(NAME, Some(1)), Ok(vec![device(NAME, "A")]));
    assert!(again.is_empty());
}

#[test]
fn devices_are_reported_once_until_they_change() {
    let mut d = Discovery::new();
    d.on_service_found(service(NAME, Some(1)));
    let s = service(NAME, Some(1));
    let first = d.on_probe_result(&s, Ok(vec![device(NAME, "A"), device(NAME, "B")]));
    assert_eq!(first.len(), 2);
    assert!(matches!(&first[0], DiscoveryEvent::Found(x) if x.key() == "A"));
    assert!(matches!(&first[1], DiscoveryEvent::Found(x) if x.key() == "B"));
    assert!(d.on_probe_result(&s, Ok(vec![device(NAME, "A"), device(NAME, "B")])).is_empty());
    let changed = d.on_probe_result(&s, Ok(vec![device(NAME, "B")]));
    assert_eq!(changed.len(), 1);
}

#[test]
fn unanswered_candidate_is_warned_about_once() {
    let mut d = Discovery::new();
    d.on_service_found(service(NAME, Some(1)));
    let s = service(NAME, Some(1));
    let first = d.on_probe_result(&s, Err("timeout".to_owned()));
    assert_eq!(first.len(), 1);
    match &first[0] {
        DiscoveryEvent::Warning(w) => assert_eq!(
            w,
            "Pico I/O Bridge-1 was found, but its status endpoint has not answered yet. Retrying…"
        ),
        _ => panic!("expected a warning"),
    }
    for _ in 0..300 {
        assert!(d.on_probe_result(&s, Err("timeout".to_owned())).is_empty());
    }
}

#[test]
fn devices_are_removed_after_consecutive_failures() {
    let mut d = Discovery::new();
    d.on_service_found(service(NAME, Some(1)));
    let s = service(NAME, Some(1));
    assert_eq!(d.on_probe_result(&s, Ok(vec![device(NAME, "A")])).len(), 1);
    for _ in 1..LIVENESS_FAILURES {
        assert!(d.on_probe_result(&s, Err("down".to_owned())).is_empty());
    }
    let gone = d.on_probe_result(&s, Err("down".to_owned()));
    assert_eq!(gone.len(), 1);
    match &gone[0] {
        DiscoveryEvent::Removed(r) => {
            assert_eq!(r.service_name, NAME);
            assert_eq!(r.interface_index, Some(1));
        }
        _ => panic!("expected a removal"),
    }
    assert!(d.on_probe_result(&s, Err("down".to_owned())).is_empty());
    assert_eq!(d.on_probe_result(&s, Ok(vec![device(NAME, "A")])).len(), 1);
}

#[test]
fn success_resets_the_failure_count() {
    let mut d = Discovery::new();
    d.on_service_found(service(NAME, Some(1)));
    let s = service(NAME, Some(1));
    d.on_probe_result(&s, Ok(vec![device(NAME, "A")]));
    d.on_probe_result(&s, Err("down".to_owned()));
    d.on_probe_result(&s, Err("down".to_owned()));
    assert!(d.on_probe_result(&s, Ok(vec![device(NAME, "A")])).is_empty());
    d.on_probe_result(&s, Err("down".to_owned()));
    assert!(d.on_probe_result(&s, Err("down".to_owned())).is_empty());
}

#[test]
fn results_for_unknown_services_are_ignored() {
    let mut d = Discovery::new();
    let events = d.on_probe_result(&service(NAME, Some(1)), Ok(vec![device(NAME, "A")]));
    assert!(events.is_empty());
    assert!(!d.has_candidates());
}

#[test]
fn browse_errors() {
    assert!(browse_error_warning(Some("Office printer"), "failed".to_owned()).is_none());
    match browse_error_warning(Some("Pico I/O Bridge"), "failed to resolve".to_owned()) {
        Some(DiscoveryEvent::Warning(w)) => assert_eq!(w, "failed to resolve"),
        _ => panic!("expected a warning"),
    }
    match browse_error_warning(None, "browse operation failed: boom".to_owned()) {
        Some(DiscoveryEvent::Warning(w)) => assert_eq!(w, "browse operation failed: boom"),
        _ => panic!("expected a warning"),
    }
}
