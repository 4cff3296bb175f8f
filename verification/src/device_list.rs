//! The list of verified devices that a user sees, kept in order of serial
//! number, and the texts shown beside it.

use vstd::prelude::*;
use crate::discovery::{DiscoveryEvent, EventView};
use crate::model::{Device, DeviceView};
use crate::text::{
    chars_less, decimal, lemma_chars_less_irreflexive, lemma_chars_less_total,
    lemma_chars_less_transitive, push_decimal, str_equal, str_less,
};

verus! {

/// Devices in strictly increasing order of serial number (so no serial
/// occurs twice).
pub open spec fn sorted_by_serial(s: Seq<DeviceView>) -> bool {
    forall|i: int, j: int|
        0 <= i < j < s.len() ==> chars_less(#[trigger] s[i].status.serial, #[trigger] s[j].status.serial)
}

/// Whether a device was reached through the service `(name, interface)`.
pub open spec fn from_service(d: DeviceView, name: Seq<char>, interface_index: Option<u32>) -> bool {
    d.service_name == name && d.interface_index == interface_index
}

/// Whether some device in `s` has serial `serial`.
pub open spec fn has_serial(s: Seq<DeviceView>, serial: Seq<char>) -> bool {
    exists|i: int| 0 <= i < s.len() && #[trigger] s[i].status.serial == serial
}

/// The index of the device with serial `serial` (meaningful where
/// `has_serial`).
pub open spec fn serial_index(s: Seq<DeviceView>, serial: Seq<char>) -> int {
    choose|i: int| 0 <= i < s.len() && #[trigger] s[i].status.serial == serial
}

/// Whether `new` is `old` with `d` placed by its serial number: in the
/// place of the device with that serial, or inserted among the others.
pub open spec fn placed(old: Seq<DeviceView>, new: Seq<DeviceView>, d: DeviceView) -> bool {
    if has_serial(old, d.status.serial) {
        new == old.update(serial_index(old, d.status.serial), d)
    } else {
        exists|p: int| 0 <= p <= old.len() && new == old.insert(p, d)
    }
}

/// After a removal no device reached through that service is on show, and
/// every device still on show was on show before.
pub proof fn lemma_removed_service_gone(
    s: Seq<DeviceView>,
    name: Seq<char>,
    interface_index: Option<u32>,
)
    ensures
        ({
            let kept = s.filter(|d: DeviceView| !from_service(d, name, interface_index));
            &&& forall|i: int|
                0 <= i < kept.len() ==> !from_service(#[trigger] kept[i], name, interface_index)
            &&& forall|i: int| 0 <= i < kept.len() ==> s.contains(#[trigger] kept[i])
        }),
{
    let keep = |d: DeviceView| !from_service(d, name, interface_index);
    let kept = s.filter(keep);
    assert forall|i: int| 0 <= i < kept.len() implies !from_service(
        #[trigger] kept[i],
        name,
        interface_index,
    ) && s.contains(kept[i]) by {
        s.lemma_filter_pred(keep, i);
        s.lemma_filter_contains_rev(keep, kept[i]);
    }
}

/// A found device is on show afterwards, and it is the only one with its
/// serial number.
pub proof fn lemma_found_is_shown(old: Seq<DeviceView>, new: Seq<DeviceView>, d: DeviceView)
    requires
        placed(old, new, d),
        sorted_by_serial(new),
    ensures
        new.contains(d),
        forall|i: int|
            0 <= i < new.len() && #[trigger] new[i].status.serial == d.status.serial ==> new[i] == d,
{
    let k = if has_serial(old, d.status.serial) {
        serial_index(old, d.status.serial)
    } else {
        choose|p: int| 0 <= p <= old.len() && new == old.insert(p, d)
    };
    assert(new[k] == d);
    assert forall|i: int|
        0 <= i < new.len() && #[trigger] new[i].status.serial == d.status.serial implies new[i]
        == d by {
        if i != k {
            lemma_chars_less_irreflexive(d.status.serial);
        }
    }
}

/// The devices on show and the latest warning.
pub struct DeviceList {
    devices: Vec<Device>,
    warning: Option<String>,
}

impl DeviceList {
    #[verifier::type_invariant]
    closed spec fn inv(self) -> bool {
        sorted_by_serial(self.devices.deep_view())
    }

    /// The devices on show, in order.
    pub closed spec fn shown(&self) -> Seq<DeviceView> {
        self.devices.deep_view()
    }

    /// The warning on show, if any.
    pub closed spec fn warning_view(&self) -> Option<Seq<char>> {
        match self.warning {
            Some(w) => Some(w@),
            None => None,
        }
    }

    /// No devices and no warning.
    pub fn new() -> (l: DeviceList)
        ensures
            l.shown() == Seq::<DeviceView>::empty(),
            l.warning_view() is None,
    {
        let l = DeviceList { devices: Vec::new(), warning: None };
        assert(l.shown() =~= Seq::<DeviceView>::empty());
        l
    }

    /// The devices on show, in order of serial number.
    pub fn devices(&self) -> (v: &Vec<Device>)
        ensures
            v.deep_view() == self.shown(),
            sorted_by_serial(v.deep_view()),
    {
        proof {
            use_type_invariant(self);
        }
        &self.devices
    }

    /// Shows a found device: it takes the place of the device with its
    /// serial number, or is inserted in order of serial number. The warning
    /// is cleared.
    pub fn show_found(&mut self, device: Device)
        ensures
            sorted_by_serial(final(self).shown()),
            final(self).warning_view() is None,
            placed(old(self).shown(), final(self).shown(), device@),
    {
        proof {
            use_type_invariant(&*self);
        }
        self.warning = None;
        let mut devices: Vec<Device> = Vec::new();
        std::mem::swap(&mut devices, &mut self.devices);
        let ghost old_list = devices.deep_view();
        let ghost serial = device@.status.serial;
        let n = devices.len();
        let mut i: usize = 0;
        while i < n && !str_equal(devices[i].status.serial.as_str(), device.status.serial.as_str())
            invariant
                i <= n,
                n == devices@.len(),
                old_list == devices.deep_view(),
                serial == device@.status.serial,
                forall|j: int| 0 <= j < i ==> #[trigger] old_list[j].status.serial != serial,
            decreases n - i,
        {
            assert(old_list[i as int].status.serial == devices@[i as int].status.serial@);
            i = i + 1;
        }
        if i < n {
            assert(old_list[i as int].status.serial == devices@[i as int].status.serial@);
            assert(old_list[i as int].status.serial == serial);
            assert(serial_index(old_list, serial) == i as int) by {
                let k = serial_index(old_list, serial);
                if k != i as int {
                    if k < i {
                        lemma_chars_less_irreflexive(serial);
                    } else {
                        lemma_chars_less_irreflexive(serial);
                    }
                }
            }
            let ghost dv = device@;
            devices.set(i, device);
            assert(devices.deep_view() =~= old_list.update(i as int, dv));
            self.devices = devices;
        } else {
            assert(!has_serial(old_list, serial));
            let mut p: usize = 0;
            while p < n && str_less(devices[p].status.serial.as_str(), device.status.serial.as_str())
                invariant
                    p <= n,
                    n == devices@.len(),
                    old_list == devices.deep_view(),
                    serial == device@.status.serial,
                    forall|j: int| 0 <= j < p ==> chars_less(#[trigger] old_list[j].status.serial, serial),
                decreases n - p,
            {
                assert(old_list[p as int].status.serial == devices@[p as int].status.serial@);
                p = p + 1;
            }
            proof {
                if p < n {
                    assert(old_list[p as int].status.serial == devices@[p as int].status.serial@);
                }
                assert forall|j: int| p <= j < n implies chars_less(
                    serial,
                    #[trigger] old_list[j].status.serial,
                ) by {
                    lemma_chars_less_total(old_list[p as int].status.serial, serial);
                    assert(old_list[p as int].status.serial != serial);
                    if j > p {
                        lemma_chars_less_transitive(
                            serial,
                            old_list[p as int].status.serial,
                            old_list[j].status.serial,
                        );
                    }
                }
            }
            let ghost dv = device@;
            devices.insert(p, device);
            let ghost new_list = old_list.insert(p as int, dv);
            assert(devices.deep_view() =~= new_list);
            assert forall|a: int, b: int| 0 <= a < b < new_list.len() implies chars_less(
                #[trigger] new_list[a].status.serial,
                #[trigger] new_list[b].status.serial,
            ) by {
                if b < p {
                } else if b == p {
                } else if a < p {
                    assert(new_list[b] == old_list[b - 1]);
                    lemma_chars_less_transitive(
                        new_list[a].status.serial,
                        serial,
                        new_list[b].status.serial,
                    );
                } else if a == p {
                    assert(new_list[b] == old_list[b - 1]);
                } else {
                    assert(new_list[a] == old_list[a - 1]);
                    assert(new_list[b] == old_list[b - 1]);
                }
            }
            assert(placed(old_list, new_list, dv));
            self.devices = devices;
        }
    }

    /// Takes away every device reached through the service
    /// `(name, interface_index)`; the others keep their order.
    pub fn show_removed(&mut self, name: &str, interface_index: Option<u32>)
        ensures
            sorted_by_serial(final(self).shown()),
            final(self).warning_view() == old(self).warning_view(),
            final(self).shown() == old(self).shown().filter(
                |d: DeviceView| !from_service(d, name@, interface_index),
            ),
    {
        proof {
            use_type_invariant(&*self);
        }
        let ghost keep = |d: DeviceView| !from_service(d, name@, interface_index);
        let mut devices: Vec<Device> = Vec::new();
        std::mem::swap(&mut devices, &mut self.devices);
        let ghost old_list = devices.deep_view();
        let mut kept: Vec<Device> = Vec::new();
        let n = devices.len();
        let mut i: usize = 0;
        assert(old_list.take(0).filter(keep) =~= Seq::<DeviceView>::empty()) by {
            reveal_with_fuel(Seq::<DeviceView>::filter, 1);
        }
        while i < n
            invariant
                i <= n,
                n == devices@.len(),
                old_list == devices.deep_view(),
                sorted_by_serial(old_list),
                keep == (|d: DeviceView| !from_service(d, name@, interface_index)),
                kept.deep_view() == old_list.take(i as int).filter(keep),
                sorted_by_serial(kept.deep_view()),
                forall|k: int, j: int|
                    0 <= k < kept@.len() && i <= j < n ==> chars_less(
                        #[trigger] kept.deep_view()[k].status.serial,
                        #[trigger] old_list[j].status.serial,
                    ),
            decreases n - i,
        {
            let d = &devices[i];
            assert(old_list[i as int] == d@);
            let matches = str_equal(d.service_name.as_str(), name) && match (
                d.interface_index,
                interface_index,
            ) {
                (Some(x), Some(y)) => x == y,
                (None, None) => true,
                _ => false,
            };
            let ghost before_kept = kept.deep_view();
            assert(old_list.take(i + 1).drop_last() =~= old_list.take(i as int));
            if !matches {
                let c = d.clone();
                kept.push(c);
                assert(kept.deep_view() =~= before_kept.push(old_list[i as int]));
                assert(kept.deep_view() == old_list.take(i + 1).filter(keep)) by {
                    reveal_with_fuel(Seq::<DeviceView>::filter, 1);
                }
                assert forall|a: int, b: int| 0 <= a < b < kept@.len() implies chars_less(
                    #[trigger] kept.deep_view()[a].status.serial,
                    #[trigger] kept.deep_view()[b].status.serial,
                ) by {
                    assert(kept.deep_view()[a] == before_kept[a]);
                    if b < kept@.len() - 1 {
                        assert(kept.deep_view()[b] == before_kept[b]);
                    } else {
                        assert(kept.deep_view()[b] == old_list[i as int]);
                    }
                }
                assert forall|k: int, j: int| 0 <= k < kept@.len() && i + 1 <= j < n implies chars_less(
                    #[trigger] kept.deep_view()[k].status.serial,
                    #[trigger] old_list[j].status.serial,
                ) by {
                    if k < kept@.len() - 1 {
                        assert(kept.deep_view()[k] == before_kept[k]);
                    } else {
                        assert(kept.deep_view()[k] == old_list[i as int]);
                    }
                }
            } else {
                assert(kept.deep_view() == old_list.take(i + 1).filter(keep)) by {
                    reveal_with_fuel(Seq::<DeviceView>::filter, 1);
                }
            }
            i = i + 1;
        }
        assert(old_list.take(n as int) =~= old_list);
        self.devices = kept;
    }

    /// Shows what discovery reported: a found device is placed by its serial
    /// number and clears the warning, a removed service takes its devices
    /// away, and a warning replaces the one on show.
    pub fn apply(&mut self, event: DiscoveryEvent)
        ensures
            sorted_by_serial(final(self).shown()),
            match event.deep_view() {
                EventView::Found(d) => placed(old(self).shown(), final(self).shown(), d)
                    && final(self).warning_view() is None,
                EventView::Removed(name, interface_index) => final(self).shown() == old(
                    self,
                ).shown().filter(|d: DeviceView| !from_service(d, name, interface_index))
                    && final(self).warning_view() == old(self).warning_view(),
                EventView::Warning(w) => final(self).shown() == old(self).shown()
                    && final(self).warning_view() == Some(w),
            },
    {
        match event {
            DiscoveryEvent::Found(device) => self.show_found(device),
            DiscoveryEvent::Removed(removed) => self.show_removed(
                removed.service_name.as_str(),
                removed.interface_index,
            ),
            DiscoveryEvent::Warning(message) => {
                proof {
                    use_type_invariant(&*self);
                }
                self.warning = Some(message);
            },
        }
    }

    /// The warning on show, if any.
    pub fn warning(&self) -> (w: Option<&String>)
        ensures
            match w {
                Some(s) => self.warning_view() == Some(s@),
                None => self.warning_view() is None,
            },
    {
        self.warning.as_ref()
    }
}


/// The heading over the list: how many devices were found.
pub open spec fn count_label_text(count: nat) -> Seq<char> {
    if count == 0 {
        "No devices found"@
    } else if count == 1 {
        "1 device found"@
    } else {
        decimal(count) + " devices found"@
    }
}

/// The heading over a list of `count` devices.
pub fn count_label(count: usize) -> (s: String)
    ensures
        s@ == count_label_text(count as nat),
{
    if count == 0 {
        String::from_str("No devices found")
    } else if count == 1 {
        String::from_str("1 device found")
    } else {
        let mut s = String::new();
        push_decimal(&mut s, count as u64);
        s.append(" devices found");
        assert(s@ =~= count_label_text(count as nat));
        s
    }
}

/// The title of a device's card: its board, or its device kind when the
/// board is not reported.
pub fn card_title(device: &Device) -> (s: String)
    ensures
        s@ == if device@.status.board.len() > 0 {
            device@.status.board
        } else {
            device@.status.device
        },
{
    if device.status.board.as_str().is_empty() {
        device.status.device.clone()
    } else {
        device.status.board.clone()
    }
}

} // verus!
