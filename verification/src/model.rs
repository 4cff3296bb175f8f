//! The identity a device reports at `/api/status`, and the devices that
//! discovery verified.

use vstd::prelude::*;
use crate::text::{decimal, push_decimal, str_equal};

verus! {

/// The stable identity fields returned by `/api/status`.
#[derive(Debug)]
pub struct ApiStatus {
    pub device: String,
    pub manufacturer: String,
    pub board: String,
    pub serial: String,
    pub firmware: String,
    pub network: String,
}

/// The contents of an [`ApiStatus`].
pub struct ApiStatusView {
    pub device: Seq<char>,
    pub manufacturer: Seq<char>,
    pub board: Seq<char>,
    pub serial: Seq<char>,
    pub firmware: Seq<char>,
    pub network: Seq<char>,
}

impl View for ApiStatus {
    type V = ApiStatusView;

    open spec fn view(&self) -> ApiStatusView {
        ApiStatusView {
            device: self.device@,
            manufacturer: self.manufacturer@,
            board: self.board@,
            serial: self.serial@,
            firmware: self.firmware@,
            network: self.network@,
        }
    }
}

impl ApiStatusView {
    /// A Pico I/O product identity: a known device kind, with board, serial
    /// and firmware all present.
    pub open spec fn is_pico_io(self) -> bool {
        &&& (self.device == "pico-io-fruit-jam"@ || self.device == "pico-io-bridge"@)
        &&& self.board.len() > 0
        &&& self.serial.len() > 0
        &&& self.firmware.len() > 0
    }
}

/// What a Pico I/O identity needs, each part on its own: whatever the
/// device kind, an empty board, serial or firmware is refused; a device kind
/// other than `pico-io-fruit-jam` or `pico-io-bridge` is refused; and either
/// kind with all three present is accepted.
pub proof fn lemma_pico_io_identity(s: ApiStatusView)
    ensures
        s.board.len() == 0 ==> !s.is_pico_io(),
        s.serial.len() == 0 ==> !s.is_pico_io(),
        s.firmware.len() == 0 ==> !s.is_pico_io(),
        s.device != "pico-io-fruit-jam"@ && s.device != "pico-io-bridge"@ ==> !s.is_pico_io(),
        (s.device == "pico-io-fruit-jam"@ || s.device == "pico-io-bridge"@) && s.board.len() > 0
            && s.serial.len() > 0 && s.firmware.len() > 0 ==> s.is_pico_io(),
{
}

impl Clone for ApiStatus {
    fn clone(&self) -> (r: Self)
        ensures
            r == *self,
    {
        ApiStatus {
            device: self.device.clone(),
            manufacturer: self.manufacturer.clone(),
            board: self.board.clone(),
            serial: self.serial.clone(),
            firmware: self.firmware.clone(),
            network: self.network.clone(),
        }
    }
}

impl ApiStatus {
    /// Whether this status identifies a Pico I/O device.
    pub fn is_pico_io(&self) -> (b: bool)
        ensures
            b == self@.is_pico_io(),
            b == ((self.device@ == "pico-io-fruit-jam"@ || self.device@ == "pico-io-bridge"@)
                && self.board@.len() != 0 && self.serial@.len() != 0 && self.firmware@.len() != 0),
    {
        (str_equal(self.device.as_str(), "pico-io-fruit-jam") || str_equal(
            self.device.as_str(),
            "pico-io-bridge",
        )) && !self.board.as_str().is_empty() && !self.serial.as_str().is_empty()
            && !self.firmware.as_str().is_empty()
    }
}


/// Dotted-decimal text of an IPv4 address, as `Ipv4Addr` displays it.
pub open spec fn ipv4_text(a: [u8; 4]) -> Seq<char> {
    decimal(a[0] as nat) + "."@ + decimal(a[1] as nat) + "."@ + decimal(a[2] as nat) + "."@
        + decimal(a[3] as nat)
}

/// The numeric HTTP origin of an endpoint; port 80 is left implicit.
pub open spec fn origin_text(address: [u8; 4], port: u16) -> Seq<char> {
    if port == 80 {
        "http://"@ + ipv4_text(address)
    } else {
        "http://"@ + ipv4_text(address) + ":"@ + decimal(port as nat)
    }
}

/// An address that is neither unspecified, loopback, multicast nor the
/// limited broadcast address.
pub open spec fn usable_address(a: [u8; 4]) -> bool {
    &&& !(a[0] == 0 && a[1] == 0 && a[2] == 0 && a[3] == 0)
    &&& a[0] != 127
    &&& !(224 <= a[0] && a[0] <= 239)
    &&& !(a[0] == 255 && a[1] == 255 && a[2] == 255 && a[3] == 255)
}

/// Whether an IPv4 address (given by its octets) may be probed.
pub fn is_usable_address(a: [u8; 4]) -> (b: bool)
    ensures
        b == usable_address(a),
        b == !((a[0] == 0 && a[1] == 0 && a[2] == 0 && a[3] == 0) || a[0] == 127 || (224 <= a[0]
            && a[0] <= 239) || (a[0] == 255 && a[1] == 255 && a[2] == 255 && a[3] == 255)),
{
    let unspecified = a[0] == 0 && a[1] == 0 && a[2] == 0 && a[3] == 0;
    let loopback = a[0] == 127;
    let multicast = 224 <= a[0] && a[0] <= 239;
    let broadcast = a[0] == 255 && a[1] == 255 && a[2] == 255 && a[3] == 255;
    !unspecified && !loopback && !multicast && !broadcast
}

/// Which IPv4 addresses are probed, by first octet: every address in
/// 1..=126, 128..=223 and 240..=255 (so every private, link-local and
/// ordinary unicast range, such as 10/8, 172.16/12 and 192.168/16), except
/// 255.255.255.255; in 0/8 every address but 0.0.0.0; and none in 127/8 or
/// the multicast block 224..=239.
pub proof fn lemma_usable_address(a: [u8; 4])
    ensures
        (1 <= a[0] <= 126 || 128 <= a[0] <= 223) ==> usable_address(a),
        240 <= a[0] ==> (usable_address(a) <==> !(a[0] == 255 && a[1] == 255 && a[2] == 255
            && a[3] == 255)),
        a[0] == 0 ==> (usable_address(a) <==> (a[1] != 0 || a[2] != 0 || a[3] != 0)),
        a[0] == 127 ==> !usable_address(a),
        (224 <= a[0] <= 239) ==> !usable_address(a),
{
}

/// Appends the dotted-decimal text of `a` to `out`.
pub fn push_ipv4(out: &mut String, a: [u8; 4])
    ensures
        final(out)@ == old(out)@ + ipv4_text(a),
{
    push_decimal(out, a[0] as u64);
    out.append(".");
    push_decimal(out, a[1] as u64);
    out.append(".");
    push_decimal(out, a[2] as u64);
    out.append(".");
    push_decimal(out, a[3] as u64);
    assert(out@ =~= old(out)@ + ipv4_text(a));
}

/// The numeric HTTP origin of `address:port`.
pub fn origin_of(address: [u8; 4], port: u16) -> (s: String)
    ensures
        s@ == origin_text(address, port),
{
    let mut s = String::new();
    s.append("http://");
    push_ipv4(&mut s, address);
    if port != 80 {
        s.append(":");
        push_decimal(&mut s, port as u64);
    }
    assert(s@ =~= origin_text(address, port));
    s
}

/// A verified Pico I/O HTTP endpoint.
#[derive(Debug)]
pub struct Device {
    pub service_name: String,
    pub host_name: String,
    pub address: [u8; 4],
    pub port: u16,
    pub interface_index: Option<u32>,
    pub status: ApiStatus,
}

/// The contents of a [`Device`].
pub struct DeviceView {
    pub service_name: Seq<char>,
    pub host_name: Seq<char>,
    pub address: [u8; 4],
    pub port: u16,
    pub interface_index: Option<u32>,
    pub status: ApiStatusView,
}

impl View for Device {
    type V = DeviceView;

    open spec fn view(&self) -> DeviceView {
        DeviceView {
            service_name: self.service_name@,
            host_name: self.host_name@,
            address: self.address,
            port: self.port,
            interface_index: self.interface_index,
            status: self.status@,
        }
    }
}

impl DeepView for Device {
    type V = DeviceView;

    open spec fn deep_view(&self) -> DeviceView {
        self@
    }
}

impl Clone for Device {
    fn clone(&self) -> (r: Self)
        ensures
            r == *self,
    {
        Device {
            service_name: self.service_name.clone(),
            host_name: self.host_name.clone(),
            address: self.address,
            port: self.port,
            interface_index: self.interface_index,
            status: self.status.clone(),
        }
    }
}

impl Device {
    /// A stable key suitable for deduplicating discovery updates: the serial.
    pub fn key(&self) -> (k: &str)
        ensures
            k@ == self.status.serial@,
    {
        self.status.serial.as_str()
    }

    /// The numeric origin used to avoid browser `.local` resolver problems.
    pub fn origin(&self) -> (s: String)
        ensures
            s@ == origin_text(self.address, self.port),
    {
        origin_of(self.address, self.port)
    }

    /// The device's built-in start page.
    pub fn open_url(&self) -> (s: String)
        ensures
            s@ == origin_text(self.address, self.port) + "/"@,
    {
        let mut s = self.origin();
        s.append("/");
        s
    }
}

/// Whether two statuses hold the same identity.
pub fn same_status(a: &ApiStatus, b: &ApiStatus) -> (r: bool)
    ensures
        r == (a@ == b@),
{
    str_equal(a.device.as_str(), b.device.as_str()) && str_equal(
        a.manufacturer.as_str(),
        b.manufacturer.as_str(),
    ) && str_equal(a.board.as_str(), b.board.as_str()) && str_equal(
        a.serial.as_str(),
        b.serial.as_str(),
    ) && str_equal(a.firmware.as_str(), b.firmware.as_str()) && str_equal(
        a.network.as_str(),
        b.network.as_str(),
    )
}

/// Whether two devices are the same endpoint with the same identity.
pub fn same_device(a: &Device, b: &Device) -> (r: bool)
    ensures
        r == (a@ == b@),
{
    let same_address = a.address[0] == b.address[0] && a.address[1] == b.address[1]
        && a.address[2] == b.address[2] && a.address[3] == b.address[3];
    proof {
        if same_address {
            assert(a.address@ =~= b.address@);
            vstd::array::axiom_array_ext_equal(a.address, b.address);
        }
    }
    let same_interface = match (a.interface_index, b.interface_index) {
        (Some(x), Some(y)) => x == y,
        (None, None) => true,
        _ => false,
    };
    str_equal(a.service_name.as_str(), b.service_name.as_str()) && str_equal(
        a.host_name.as_str(),
        b.host_name.as_str(),
    ) && same_address && a.port == b.port && same_interface && same_status(&a.status, &b.status)
}

impl PartialEq for ApiStatus {
    fn eq(&self, other: &Self) -> (r: bool) {
        same_status(self, other)
    }
}

impl Eq for ApiStatus {}

impl vstd::std_specs::cmp::PartialEqSpecImpl for ApiStatus {
    open spec fn obeys_eq_spec() -> bool {
        true
    }

    open spec fn eq_spec(&self, other: &Self) -> bool {
        self@ == other@
    }
}

impl PartialEq for Device {
    fn eq(&self, other: &Self) -> (r: bool) {
        same_device(self, other)
    }
}

impl Eq for Device {}

impl vstd::std_specs::cmp::PartialEqSpecImpl for Device {
    open spec fn obeys_eq_spec() -> bool {
        true
    }

    open spec fn eq_spec(&self, other: &Self) -> bool {
        self@ == other@
    }
}

/// Whether two device lists hold the same devices in the same order.
pub fn same_devices(a: &Vec<Device>, b: &Vec<Device>) -> (r: bool)
    ensures
        r == (a.deep_view() == b.deep_view()),
{
    if a.len() != b.len() {
        assert(a.deep_view().len() != b.deep_view().len());
        return false;
    }
    let mut i: usize = 0;
    while i < a.len()
        invariant
            a@.len() == b@.len(),
            i <= a@.len(),
            forall|j: int| 0 <= j < i ==> a.deep_view()[j] == b.deep_view()[j],
        decreases a.len() - i,
    {
        if !same_device(&a[i], &b[i]) {
            assert(a.deep_view()[i as int] != b.deep_view()[i as int]);
            return false;
        }
        i = i + 1;
    }
    assert(a.deep_view() =~= b.deep_view());
    true
}

/// DNS-SD identity available when a service disappears.
#[derive(Debug)]
pub struct RemovedDevice {
    pub service_name: String,
    pub interface_index: Option<u32>,
}

/// The contents of a [`RemovedDevice`].
pub struct RemovedDeviceView {
    pub service_name: Seq<char>,
    pub interface_index: Option<u32>,
}

impl View for RemovedDevice {
    type V = RemovedDeviceView;

    open spec fn view(&self) -> RemovedDeviceView {
        RemovedDeviceView { service_name: self.service_name@, interface_index: self.interface_index }
    }
}

impl PartialEq for RemovedDevice {
    fn eq(&self, other: &Self) -> (r: bool) {
        let same_interface = match (self.interface_index, other.interface_index) {
            (Some(x), Some(y)) => x == y,
            (None, None) => true,
            _ => false,
        };
        str_equal(self.service_name.as_str(), other.service_name.as_str()) && same_interface
    }
}

impl Eq for RemovedDevice {}

impl vstd::std_specs::cmp::PartialEqSpecImpl for RemovedDevice {
    open spec fn obeys_eq_spec() -> bool {
        true
    }

    open spec fn eq_spec(&self, other: &Self) -> bool {
        self@ == other@
    }
}

impl Clone for RemovedDevice {
    fn clone(&self) -> (r: Self)
        ensures
            r == *self,
    {
        RemovedDevice { service_name: self.service_name.clone(), interface_index: self.interface_index }
    }
}

} // verus!
