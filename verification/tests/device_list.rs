use pico_io_finder::device_list::{card_title, count_label, DeviceList};
use pico_io_finder::discovery::DiscoveryEvent;
use pico_io_finder::model::{ApiStatus, Device, RemovedDevice};

fn device(name: &str, interface: Option<u32>, serial: &str) -> Device {
    Device {
        service_name: name.to_owned(),
        host_name: "host.local".to_owned(),
        address: [10, 0, 0, 2],
        port: 80,
        interface_index: interface,
        status: ApiStatus {
            device: "pico-io-bridge".to_owned(),
            manufacturer: String::new(),
            board: "RP2350".to_owned(),
            serial: serial.to_owned(),
            firmware: "1.0".to_owned(),
            network: String::new(),
        },
    }
}

fn serials(list: &DeviceList) -> Vec<String> {
    list.devices().iter().map(|d| d.status.serial.clone()).collect()
}

#[test]
fn devices_are_kept_in_serial_order_without_duplicates() {
    let mut list = DeviceList::new();
    list.apply(DiscoveryEvent::Found(device("B", Some(1), "M2")));
    list.apply(DiscoveryEvent::Found(device("A", Some(1), "E6AF")));
    list.apply(DiscoveryEvent::Found(device("C", Some(1), "Z")));
    list.apply(DiscoveryEvent::Found(device("C", Some(1), "E6")));
    assert_eq!(serials(&list), vec!["E6", "E6AF", "M2", "Z"]);
    let mut updated = device("A2", Some(3), "E6AF");
    updated.port = 8080;
    list.apply(DiscoveryEvent::Found(updated));
    assert_eq!(serials(&list), vec!["E6", "E6AF", "M2", "Z"]);
    assert_eq!(list.devices()[1].port, 8080);
    assert_eq!(list.devices()[1].service_name, "A2");
}

#[test]
fn order_is_by_code_point() {
    let mut list = DeviceList::new();
    for serial in ["b", "B", "é", "a", "Ab", "A"] {
        list.apply(DiscoveryEvent::Found(device("S", None, serial)));
    }
    let mut expected = vec!["b", "B", "é", "a", "Ab", "A"];
    expected.sort();
    assert_eq!(serials(&list), expected);
}

#[test]
fn removal_takes_away_every_device_of_the_service() {
    let mut list = DeviceList::new();
    list.apply(DiscoveryEvent::Found(device("S", Some(1), "1")));
    list.apply(DiscoveryEvent::Found(device("S", Some(2), "2")));
    list.apply(DiscoveryEvent::Found(device("T", Some(1), "3")));
    list.apply(DiscoveryEvent::Found(device("S", Some(1), "4")));
    list.apply(DiscoveryEvent::Removed(RemovedDevice {
        service_name: "S".to_owned(),
        interface_index: Some(1),
    }));
    assert_eq!(serials(&list), vec!["2", "3"]);
}

#[test]
fn warnings_are_shown_until_a_device_is_found() {
    let mut list = DeviceList::new();
    assert!(list.warning().is_none());
    list.apply(DiscoveryEvent::Warning("late".to_owned()));
    assert_eq!(list.warning().unwrap(), "late");
    list.apply(DiscoveryEvent::Removed(RemovedDevice {
        service_name: "S".to_owned(),
        interface_index: None,
    }));
    assert_eq!(list.warning().unwrap(), "late");
    list.apply(DiscoveryEvent::Found(device("S", None, "1")));
    assert!(list.warning().is_none());
}

#[test]
fn count_labels() {
    assert_eq!(count_label(0), "No devices found");
    assert_eq!(count_label(1), "1 device found");
    assert_eq!(count_label(2), "2 devices found");
    assert_eq!(count_label(1234), "1234 devices found");
}

#[test]
fn card_titles() {
    let mut d = device("S", None, "1");
    assert_eq!(card_title(&d), "RP2350");
    d.status.board.clear();
    assert_eq!(card_title(&d), "pico-io-bridge");
}
