use pico_io_finder::identity::{IpAddress, ServiceRecord};
use pico_io_finder::model::ApiStatus;
use pico_io_finder::probe::{
    append_chunk, check_content_length, status_url, ProbeStep, StatusProbe, MAX_STATUS_BYTES,
    PROBE_RETRIES,
};

fn service(port: u16, addresses: Vec<IpAddress>) -> ServiceRecord {
    ServiceRecord {
        name: "Pico I/O Bridge-244C29".to_owned(),
        host_name: "pico-io-bridge-244c29.local".to_owned(),
        port,
        addresses,
        txt_records: Vec::new(),
        interface_index: Some(7),
    }
}

fn bridge_status(serial: &str) -> ApiStatus {
    ApiStatus {
        device: "pico-io-bridge".to_owned(),
        manufacturer: String::new(),
        board: "RP2350".to_owned(),
        serial: serial.to_owned(),
        firmware: "1.0.0".to_owned(),
        network: "cdc-ncm".to_owned(),
    }
}

fn printer_status() -> ApiStatus {
    ApiStatus {
        device: "printer".to_owned(),
        manufacturer: String::new(),
        board: String::new(),
        serial: "123".to_owned(),
        firmware: String::new(),
        network: String::new(),
    }
}

fn url_of(step: &ProbeStep) -> String {
    match step {
        ProbeStep::Request(u) | ProbeStep::RetryAfterDelay(u) => u.clone(),
        ProbeStep::Finished(_) => panic!("probe finished early"),
    }
}

#[test]
fn status_url_formula() {
    assert_eq!(status_url([10, 97, 225, 1], 80), "http://10.97.225.1/api/status");
    assert_eq!(status_url([192, 168, 4, 1], 8080), "http://192.168.4.1:8080/api/status");
}

#[test]
fn port_zero_fails_at_once() {
    let (_, step) = StatusProbe::start(service(0, vec![IpAddress::V4([10, 0, 0, 2])]));
    match step {
        ProbeStep::Finished(Err(e)) => assert_eq!(e, "Pico I/O Bridge-244C29 advertised TCP port 0"),
        _ => panic!("expected a failure"),
    }
}

#[test]
fn no_usable_address_fails() {
    let (_, step) = StatusProbe::start(service(
        80,
        vec![IpAddress::V6([0; 16]), IpAddress::V4([127, 0, 0, 1]), IpAddress::V4([224, 0, 0, 251])],
    ));
    match step {
        ProbeStep::Finished(Err(e)) => assert_eq!(
            e,
            "Pico I/O Bridge-244C29 was discovered without a usable IPv4 address"
        ),
        _ => panic!("expected a failure"),
    }
}

#[test]
fn skips_unusable_addresses_and_reports_the_device() {
    let (mut probe, step) = StatusProbe::start(service(
        80,
        vec![IpAddress::V4([127, 0, 0, 1]), IpAddress::V4([10, 97, 225, 1])],
    ));
    assert!(matches!(&step, ProbeStep::Request(u) if u == "http://10.97.225.1/api/status"));
    match probe.on_response(Ok(bridge_status("244C29"))) {
        ProbeStep::Finished(Ok(devices)) => {
            assert_eq!(devices.len(), 1);
            assert_eq!(devices[0].address, [10, 97, 225, 1]);
            assert_eq!(devices[0].service_name, "Pico I/O Bridge-244C29");
            assert_eq!(devices[0].interface_index, Some(7));
            assert_eq!(devices[0].key(), "244C29");
        }
        _ => panic!("expected the device"),
    }
}

#[test]
fn retries_a_failing_address_then_moves_on() {
    let (mut probe, step) = StatusProbe::start(service(
        8080,
        vec![IpAddress::V4([10, 0, 0, 2]), IpAddress::V4([10, 0, 0, 3])],
    ));
    assert_eq!(url_of(&step), "http://10.0.0.2:8080/api/status");
    let mut requests = 1;
    let mut step = probe.on_response(Err("connection refused".to_owned()));
    while let ProbeStep::RetryAfterDelay(u) = &step {
        assert_eq!(u, "http://10.0.0.2:8080/api/status");
        requests += 1;
        step = probe.on_response(Err("connection refused".to_owned()));
    }
    assert_eq!(requests, PROBE_RETRIES);
    assert_eq!(url_of(&step), "http://10.0.0.3:8080/api/status");
    match probe.on_response(Ok(printer_status())) {
        ProbeStep::Finished(Err(e)) => {
            assert_eq!(e, "http://10.0.0.3:8080/api/status is not a Pico I/O device")
        }
        _ => panic!("expected a failure"),
    }
}

#[test]
fn last_error_names_the_url() {
    let (mut probe, _) = StatusProbe::start(service(80, vec![IpAddress::V4([10, 0, 0, 2])]));
    let mut step = probe.on_response(Err("timed out".to_owned()));
    while let ProbeStep::RetryAfterDelay(_) = step {
        step = probe.on_response(Err("timed out".to_owned()));
    }
    match step {
        ProbeStep::Finished(Err(e)) => assert_eq!(e, "http://10.0.0.2/api/status: timed out"),
        _ => panic!("expected a failure"),
    }
}

#[test]
fn success_after_a_retry_counts() {
    let (mut probe, _) = StatusProbe::start(service(80, vec![IpAddress::V4([10, 0, 0, 2])]));
    assert!(matches!(probe.on_response(Err("reset".to_owned())), ProbeStep::RetryAfterDelay(_)));
    match probe.on_response(Ok(bridge_status("1"))) {
        ProbeStep::Finished(Ok(devices)) => assert_eq!(devices.len(), 1),
        _ => panic!("expected the device"),
    }
}

#[test]
fn devices_survive_a_later_failure() {
    let (mut probe, _) = StatusProbe::start(service(
        80,
        vec![IpAddress::V4([10, 0, 0, 2]), IpAddress::V4([10, 0, 0, 3])],
    ));
    assert!(matches!(probe.on_response(Ok(bridge_status("1"))), ProbeStep::Request(_)));
    let mut step = probe.on_response(Err("down".to_owned()));
    while let ProbeStep::RetryAfterDelay(_) = step {
        step = probe.on_response(Err("down".to_owned()));
    }
    match step {
        ProbeStep::Finished(Ok(devices)) => {
            assert_eq!(devices.len(), 1);
            assert_eq!(devices[0].address, [10, 0, 0, 2]);
        }
        _ => panic!("expected the device"),
    }
}

#[test]
fn response_size_limits() {
    assert!(check_content_length(None).is_ok());
    assert!(check_content_length(Some(MAX_STATUS_BYTES as u64)).is_ok());
    assert_eq!(
        check_content_length(Some(MAX_STATUS_BYTES as u64 + 1)).unwrap_err(),
        "response exceeds 65536 bytes"
    );
    let mut body = Vec::new();
    assert!(append_chunk(&mut body, &[1, 2, 3]).is_ok());
    assert_eq!(body, vec![1, 2, 3]);
    let big = vec![0u8; MAX_STATUS_BYTES - 3];
    assert!(append_chunk(&mut body, &big).is_ok());
    assert_eq!(body.len(), MAX_STATUS_BYTES);
    assert_eq!(append_chunk(&mut body, &[9]).unwrap_err(), "response exceeds 65536 bytes");
    assert_eq!(body.len(), MAX_STATUS_BYTES);
}
