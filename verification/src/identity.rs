//! Which DNS-SD services may be Pico I/O devices.

use vstd::prelude::*;
use crate::text::{
    chars_of, has_prefix, lower_starts_with, starts_with, str_equal, to_ascii_lower, trim, trimmed,
};

verus! {

/// A single TXT record entry: a key, and a value unless the key stands alone.
#[derive(Debug)]
pub struct TxtRecord {
    pub key: String,
    pub value: Option<Vec<u8>>,
}

/// The contents of a [`TxtRecord`].
pub struct TxtRecordView {
    pub key: Seq<char>,
    pub value: Option<Seq<u8>>,
}

impl DeepView for TxtRecord {
    type V = TxtRecordView;

    open spec fn deep_view(&self) -> TxtRecordView {
        TxtRecordView {
            key: self.key@,
            value: match self.value {
                Some(v) => Some(v@),
                None => None,
            },
        }
    }
}

impl Clone for TxtRecord {
    fn clone(&self) -> (r: Self)
        ensures
            r.deep_view() == self.deep_view(),
    {
        TxtRecord {
            key: self.key.clone(),
            value: match &self.value {
                Some(v) => Some(v.clone()),
                None => None,
            },
        }
    }
}

/// An IP address reported for a service host.
#[derive(Debug, Clone, Copy)]
pub enum IpAddress {
    V4([u8; 4]),
    V6([u8; 16]),
}

/// A resolved DNS-SD service, with the fields that discovery reads.
#[derive(Debug)]
pub struct ServiceRecord {
    /// The service instance name, e.g. `Pico I/O Fruit Jam-CC6D4F`.
    pub name: String,
    /// The SRV target host name, e.g. `pico-io-fruit-jam-cc6d4f.local`.
    pub host_name: String,
    /// The port the service accepts connections on.
    pub port: u16,
    /// Resolved addresses of the host, in the order they were reported.
    pub addresses: Vec<IpAddress>,
    /// The TXT record entries, in the order they were reported.
    pub txt_records: Vec<TxtRecord>,
    /// The interface the service was discovered on, if known.
    pub interface_index: Option<u32>,
}

/// The contents of a [`ServiceRecord`].
pub struct ServiceView {
    pub name: Seq<char>,
    pub host_name: Seq<char>,
    pub port: u16,
    pub addresses: Seq<IpAddress>,
    pub txt_records: Seq<TxtRecordView>,
    pub interface_index: Option<u32>,
}

impl View for ServiceRecord {
    type V = ServiceView;

    open spec fn view(&self) -> ServiceView {
        ServiceView {
            name: self.name@,
            host_name: self.host_name@,
            port: self.port,
            addresses: self.addresses@,
            txt_records: self.txt_records.deep_view(),
            interface_index: self.interface_index,
        }
    }
}

impl Clone for ServiceRecord {
    fn clone(&self) -> (r: Self)
        ensures
            r@ == self@,
    {
        let mut addresses: Vec<IpAddress> = Vec::new();
        let mut i: usize = 0;
        while i < self.addresses.len()
            invariant
                i <= self.addresses@.len(),
                addresses@ == self.addresses@.subrange(0, i as int),
            decreases self.addresses.len() - i,
        {
            addresses.push(self.addresses[i]);
            i = i + 1;
            assert(addresses@ =~= self.addresses@.subrange(0, i as int));
        }
        let mut txt_records: Vec<TxtRecord> = Vec::new();
        let mut k: usize = 0;
        while k < self.txt_records.len()
            invariant
                k <= self.txt_records@.len(),
                txt_records@.len() == k,
                txt_records.deep_view() == self.txt_records.deep_view().subrange(0, k as int),
            decreases self.txt_records.len() - k,
        {
            let entry = self.txt_records[k].clone();
            assert(entry.deep_view() == self.txt_records@[k as int].deep_view());
            let ghost prev = txt_records@;
            txt_records.push(entry);
            assert(txt_records@ == prev.push(entry));
            assert(txt_records.deep_view()[k as int] == self.txt_records.deep_view()[k as int]);
            k = k + 1;
            assert(txt_records.deep_view() =~= self.txt_records.deep_view().subrange(0, k as int));
        }
        assert(addresses@ =~= self.addresses@);
        assert(txt_records.deep_view() =~= self.txt_records.deep_view());
        ServiceRecord {
            name: self.name.clone(),
            host_name: self.host_name.clone(),
            port: self.port,
            addresses,
            txt_records,
            interface_index: self.interface_index,
        }
    }
}

/// The value of the first TXT entry whose key is `key`; `None` when there is
/// no such entry or it stands without a value.
pub open spec fn txt_value(records: Seq<TxtRecordView>, key: Seq<char>) -> Option<Seq<u8>>
    decreases records.len(),
{
    if records.len() == 0 {
        None
    } else if records[0].key == key {
        records[0].value
    } else {
        txt_value(records.drop_first(), key)
    }
}

/// A service instance name that a Pico I/O device advertises: after trimming
/// white space and folding ASCII case it begins with `pico i/o ` or `pico-io`.
pub open spec fn pico_io_service_name(name: Seq<char>) -> bool {
    let folded = to_ascii_lower(trim(name));
    starts_with(folded, "pico i/o "@) || starts_with(folded, "pico-io"@)
}

/// The ASCII bytes of `pico-io-`.
pub open spec fn pico_io_tag() -> Seq<u8> {
    seq![0x70u8, 0x69u8, 0x63u8, 0x6fu8, 0x2du8, 0x69u8, 0x6fu8, 0x2du8]
}

/// A service that may be a Pico I/O device: by its instance name, by a host
/// name beginning with `pico-io-` in any ASCII case, or by a `device` TXT
/// value beginning with the bytes `pico-io-`.
pub open spec fn pico_io_candidate(s: ServiceView) -> bool {
    ||| pico_io_service_name(s.name)
    ||| starts_with(to_ascii_lower(s.host_name), "pico-io-"@)
    ||| match txt_value(s.txt_records, "device"@) {
        Some(v) => starts_with(v, pico_io_tag()),
        None => false,
    }
}

impl ServiceRecord {
    /// The value of the first TXT entry matching `key`, if it has one.
    pub fn txt(&self, key: &str) -> (r: Option<&Vec<u8>>)
        ensures
            match r {
                Some(v) => txt_value(self@.txt_records, key@) == Some(v@),
                None => txt_value(self@.txt_records, key@) is None,
            },
    {
        let ghost all = self@.txt_records;
        let mut i: usize = 0;
        assert(all.skip(0) =~= all);
        while i < self.txt_records.len()
            invariant
                i <= self.txt_records@.len(),
                all == self.txt_records.deep_view(),
                txt_value(all, key@) == txt_value(all.skip(i as int), key@),
            decreases self.txt_records.len() - i,
        {
            let record = &self.txt_records[i];
            proof {
                assert(all.skip(i as int)[0] == record.deep_view());
            }
            if str_equal(record.key.as_str(), key) {
                return record.value.as_ref();
            }
            assert(all.skip(i as int).drop_first() =~= all.skip(i + 1));
            i = i + 1;
        }
        None
    }
}

/// Whether a service instance name belongs to a Pico I/O device.
pub fn is_pico_io_service_name(name: &str) -> (b: bool)
    ensures
        b == pico_io_service_name(name@),
{
    let folded = trimmed(&chars_of(name));
    lower_starts_with(&folded, &chars_of("pico i/o ")) || lower_starts_with(
        &folded,
        &chars_of("pico-io"),
    )
}

/// Whether a discovered service may be a Pico I/O device.
pub fn is_pico_io_candidate(service: &ServiceRecord) -> (b: bool)
    ensures
        b == pico_io_candidate(service@),
{
    let host = chars_of(service.host_name.as_str());
    if is_pico_io_service_name(service.name.as_str()) {
        return true;
    }
    if lower_starts_with(&host, &chars_of("pico-io-")) {
        return true;
    }
    match service.txt("device") {
        Some(value) => {
            let tag: Vec<u8> = vec![0x70u8, 0x69u8, 0x63u8, 0x6fu8, 0x2du8, 0x69u8, 0x6fu8, 0x2du8];
            assert(tag@ =~= pico_io_tag());
            has_prefix(value, &tag)
        },
        None => false,
    }
}

/// The key under which discovery tracks a service: its name and interface.
pub fn service_key(service: &ServiceRecord) -> (k: (String, Option<u32>))
    ensures
        k.0@ == service.name@,
        k.1 == service.interface_index,
{
    (service.name.clone(), service.interface_index)
}

} // verus!
