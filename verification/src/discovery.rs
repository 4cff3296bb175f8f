//! The decisions of continuous discovery: which browsed services become
//! candidates, when a candidate's devices are reported found or removed, and
//! which warnings the user sees. The caller performs the browsing and the
//! probing and hands each outcome to a [`Discovery`].

use vstd::prelude::*;
use crate::identity::{ServiceRecord, ServiceView, is_pico_io_candidate, is_pico_io_service_name,
    pico_io_candidate, pico_io_service_name};
use crate::model::{Device, DeviceView, RemovedDevice, same_devices, usable_address};
use crate::probe::verified_device;
use crate::text::str_equal;

verus! {

/// The number of consecutive failed probes after which a candidate's
/// devices are reported removed.
pub const LIVENESS_FAILURES: u8 = 3;

/// Updates emitted by discovery.
#[derive(Debug)]
pub enum DiscoveryEvent {
    Found(Device),
    Removed(RemovedDevice),
    Warning(String),
}

/// The contents of a [`DiscoveryEvent`].
pub enum EventView {
    Found(DeviceView),
    Removed(Seq<char>, Option<u32>),
    Warning(Seq<char>),
}

impl DeepView for DiscoveryEvent {
    type V = EventView;

    open spec fn deep_view(&self) -> EventView {
        match self {
            DiscoveryEvent::Found(d) => EventView::Found(d@),
            DiscoveryEvent::Removed(r) => EventView::Removed(r.service_name@, r.interface_index),
            DiscoveryEvent::Warning(w) => EventView::Warning(w@),
        }
    }
}

impl Clone for DiscoveryEvent {
    fn clone(&self) -> (r: Self)
        ensures
            r == *self,
    {
        match self {
            DiscoveryEvent::Found(d) => DiscoveryEvent::Found(d.clone()),
            DiscoveryEvent::Removed(r) => DiscoveryEvent::Removed(r.clone()),
            DiscoveryEvent::Warning(w) => DiscoveryEvent::Warning(w.clone()),
        }
    }
}

/// A service under observation: its latest record, the devices last
/// reported for it, and how many probes in a row have failed.
pub struct Candidate {
    service: ServiceRecord,
    last_devices: Vec<Device>,
    failures: u8,
}

/// The contents of a [`Candidate`].
pub struct CandidateView {
    pub service: ServiceView,
    pub last_devices: Seq<DeviceView>,
    pub failures: u8,
}

impl DeepView for Candidate {
    type V = CandidateView;

    closed spec fn deep_view(&self) -> CandidateView {
        CandidateView {
            service: self.service@,
            last_devices: self.last_devices.deep_view(),
            failures: self.failures,
        }
    }
}

/// The key under which a service is tracked: its name and interface.
pub open spec fn key_of(s: ServiceView) -> (Seq<char>, Option<u32>) {
    (s.name, s.interface_index)
}

/// No two candidates share a key.
pub open spec fn keys_distinct(cs: Seq<CandidateView>) -> bool {
    forall|i: int, j: int|
        0 <= i < cs.len() && 0 <= j < cs.len() && i != j ==> key_of(#[trigger] cs[i].service)
            != key_of(#[trigger] cs[j].service)
}

/// Candidates as discovery keeps them: distinct keys, and every one a
/// Pico I/O candidate.
pub open spec fn well_kept(cs: Seq<CandidateView>) -> bool {
    &&& keys_distinct(cs)
    &&& forall|i: int| 0 <= i < cs.len() ==> pico_io_candidate(#[trigger] cs[i].service)
}

/// Whether some candidate has key `k`.
pub open spec fn has_key(cs: Seq<CandidateView>, k: (Seq<char>, Option<u32>)) -> bool {
    exists|i: int| 0 <= i < cs.len() && key_of(#[trigger] cs[i].service) == k
}

/// The index of the candidate with key `k` (meaningful where `has_key`).
pub open spec fn index_of(cs: Seq<CandidateView>, k: (Seq<char>, Option<u32>)) -> int {
    choose|i: int| 0 <= i < cs.len() && key_of(#[trigger] cs[i].service) == k
}

/// The candidates after the service `s` was browsed: a Pico I/O candidate
/// replaces the record of the candidate with its key, keeping its devices and
/// failure count, or is added with none; other services change nothing.
pub open spec fn after_found(cs: Seq<CandidateView>, s: ServiceView) -> Seq<CandidateView> {
    if !pico_io_candidate(s) {
        cs
    } else if has_key(cs, key_of(s)) {
        let i = index_of(cs, key_of(s));
        cs.update(i, CandidateView { service: s, ..cs[i] })
    } else {
        cs.push(CandidateView { service: s, last_devices: Seq::empty(), failures: 0 })
    }
}

/// The candidates after the service with key `k` went away.
pub open spec fn after_removed(cs: Seq<CandidateView>, k: (Seq<char>, Option<u32>)) -> Seq<
    CandidateView,
> {
    if has_key(cs, k) {
        cs.remove(index_of(cs, k))
    } else {
        cs
    }
}

/// The failure count after one more failed probe, saturating at 255.
pub open spec fn count_failure(f: u8) -> u8 {
    if f == 255 {
        255
    } else {
        (f + 1) as u8
    }
}

/// The warning for a candidate whose status endpoint has not answered.
pub open spec fn not_answered_text(name: Seq<char>) -> Seq<char> {
    name + " was found, but its status endpoint has not answered yet. Retrying…"@
}

/// A candidate and the events after a successful probe found `devices`:
/// the failure count resets, and a changed device list is reported found,
/// one event per device in order.
pub open spec fn after_success(c: CandidateView, devices: Seq<DeviceView>) -> (
    CandidateView,
    Seq<EventView>,
) {
    if c.last_devices == devices {
        (CandidateView { failures: 0, ..c }, Seq::empty())
    } else {
        (
            CandidateView { last_devices: devices, failures: 0, ..c },
            devices.map_values(|d: DeviceView| EventView::Found(d)),
        )
    }
}

/// A candidate and the events after a failed probe: the first failure of a
/// candidate with no devices is warned about, and the `LIVENESS_FAILURES`-th
/// failure in a row of a candidate with devices reports them removed.
pub open spec fn after_failure(c: CandidateView) -> (CandidateView, Seq<EventView>) {
    let f = count_failure(c.failures);
    let warn = f == 1 && c.last_devices.len() == 0;
    let drop = f == LIVENESS_FAILURES && c.last_devices.len() > 0;
    (
        CandidateView {
            last_devices: if drop {
                Seq::empty()
            } else {
                c.last_devices
            },
            failures: f,
            ..c
        },
        (if warn {
            seq![EventView::Warning(not_answered_text(c.service.name))]
        } else {
            Seq::empty()
        }) + (if drop {
            seq![EventView::Removed(c.service.name, c.service.interface_index)]
        } else {
            Seq::empty()
        }),
    )
}

/// A candidate and the events after a probe with `result`.
pub open spec fn after_probe(c: CandidateView, result: Result<Seq<DeviceView>, Seq<char>>) -> (
    CandidateView,
    Seq<EventView>,
) {
    match result {
        Ok(devices) => after_success(c, devices),
        Err(_) => after_failure(c),
    }
}

/// The view of a probe result.
pub open spec fn probe_result_view(r: Result<Vec<Device>, String>) -> Result<
    Seq<DeviceView>,
    Seq<char>,
> {
    match r {
        Ok(v) => Ok(v.deep_view()),
        Err(e) => Err(e@),
    }
}

/// Whether a browse error is shown: every error but a failure to resolve a
/// service whose name is not a Pico I/O name.
pub open spec fn error_shown(resolve_failed_name: Option<Seq<char>>) -> bool {
    match resolve_failed_name {
        Some(name) => pico_io_service_name(name),
        None => true,
    }
}

/// The warning for a browse error, if it is shown. `resolve_failed_name` is
/// the service name of a resolve failure, `None` for any other error, and
/// `message` the error's text.
pub fn browse_error_warning(resolve_failed_name: Option<&str>, message: String) -> (r: Option<
    DiscoveryEvent,
>)
    ensures
        error_shown(match resolve_failed_name {
            Some(n) => Some(n@),
            None => None,
        }) ==> (r matches Some(e) && e.deep_view() == EventView::Warning(message@)),
        !error_shown(match resolve_failed_name {
            Some(n) => Some(n@),
            None => None,
        }) ==> r is None,
{
    match resolve_failed_name {
        Some(name) => if !is_pico_io_service_name(name) {
            return None;
        },
        None => {},
    }
    Some(DiscoveryEvent::Warning(message))
}

/// A service that goes away after it was found leaves the candidates as if
/// it had never been seen, and it is no longer a candidate.
pub proof fn lemma_found_then_removed(cs: Seq<CandidateView>, s: ServiceView)
    requires
        keys_distinct(cs),
    ensures
        !has_key(after_removed(after_found(cs, s), key_of(s)), key_of(s)),
        after_removed(after_found(cs, s), key_of(s)) == after_removed(cs, key_of(s)),
        pico_io_candidate(s) ==> has_key(after_found(cs, s), key_of(s)),
{
    let k = key_of(s);
    let found = after_found(cs, s);
    if pico_io_candidate(s) {
        if has_key(cs, k) {
            let i = index_of(cs, k);
            assert(key_of(found[i].service) == k);
            assert(has_key(found, k));
            let j = index_of(found, k);
            assert(j == i) by {
                if j != i {
                    assert(key_of(cs[j].service) == k);
                }
            }
            let gone = found.remove(i);
            assert(gone =~= cs.remove(i));
            assert(!has_key(gone, k)) by {
                if has_key(gone, k) {
                    let m = choose|m: int| 0 <= m < gone.len() && key_of(#[trigger] gone[m].service) == k;
                    if m < i {
                        assert(gone[m] == cs[m]);
                    } else {
                        assert(gone[m] == cs[m + 1]);
                    }
                }
            }
        } else {
            let n = cs.len() as int;
            assert(key_of(found[n].service) == k);
            assert(has_key(found, k));
            let j = index_of(found, k);
            assert(j == n) by {
                if j != n {
                    assert(found[j] == cs[j]);
                }
            }
            assert(found.remove(n) =~= cs);
        }
    } else if has_key(cs, k) {
        let i = index_of(cs, k);
        let gone = cs.remove(i);
        assert(!has_key(gone, k)) by {
            if has_key(gone, k) {
                let m = choose|m: int| 0 <= m < gone.len() && key_of(#[trigger] gone[m].service) == k;
                if m < i {
                    assert(gone[m] == cs[m]);
                } else {
                    assert(gone[m] == cs[m + 1]);
                }
            }
        }
    }
}

/// A candidate with devices whose probes then fail `LIVENESS_FAILURES`
/// times in a row is reported removed on the last of those failures, and
/// only then.
pub proof fn lemma_removed_after_failures(c: CandidateView)
    requires
        c.failures == 0,
        c.last_devices.len() > 0,
    ensures
        ({
            let (c1, e1) = after_failure(c);
            let (c2, e2) = after_failure(c1);
            let (c3, e3) = after_failure(c2);
            &&& e1.len() == 0
            &&& e2.len() == 0
            &&& e3 == seq![EventView::Removed(c.service.name, c.service.interface_index)]
            &&& c3.last_devices.len() == 0
        }),
{
    let (c1, e1) = after_failure(c);
    let (c2, e2) = after_failure(c1);
    let (c3, e3) = after_failure(c2);
    assert(e1 =~= Seq::<EventView>::empty());
    assert(e2 =~= Seq::<EventView>::empty());
    assert(e3 =~= seq![EventView::Removed(c.service.name, c.service.interface_index)]);
}

/// A candidate that has not answered is warned about once: a further
/// failure, before any success, reports nothing.
pub proof fn lemma_warned_once(c: CandidateView)
    requires
        c.last_devices.len() == 0,
    ensures
        c.failures == 0 ==> after_failure(c).1 == seq![
            EventView::Warning(not_answered_text(c.service.name)),
        ],
        c.failures >= 1 ==> after_failure(c).1.len() == 0,
        after_failure(c).0.failures >= 1,
        after_failure(c).0.last_devices.len() == 0,
{
    if c.failures == 0 {
        assert(after_failure(c).1 =~= seq![EventView::Warning(not_answered_text(c.service.name))]);
    } else {
        assert(after_failure(c).1 =~= Seq::<EventView>::empty());
    }
}

/// A successful probe reports the devices found again whenever they differ
/// from the last report in any way (another address, port, firmware or any
/// other field, another count or order): one found event per device, in
/// order, and they become the last report; a report equal to the last one
/// sends nothing. Either way the failure count resets and the record stays.
pub proof fn lemma_success_reports_changes(c: CandidateView, devices: Seq<DeviceView>)
    ensures
        c.last_devices != devices ==> {
            &&& after_success(c, devices).1.len() == devices.len()
            &&& forall|i: int|
                0 <= i < devices.len() ==> #[trigger] after_success(c, devices).1[i]
                    == EventView::Found(devices[i])
            &&& after_success(c, devices).0.last_devices == devices
        },
        c.last_devices == devices ==> after_success(c, devices).1.len() == 0
            && after_success(c, devices).0.last_devices == c.last_devices,
        after_success(c, devices).0.failures == 0,
        after_success(c, devices).0.service == c.service,
{
}

/// A service found again while it is a candidate only refreshes its record:
/// its devices and failure count stay, so a re-announcement neither hides
/// failures nor brings back the warning; every other candidate stays as it
/// was, and a new candidate starts with no devices and no failures.
pub proof fn lemma_refound_keeps_state(cs: Seq<CandidateView>, s: ServiceView)
    requires
        keys_distinct(cs),
        pico_io_candidate(s),
    ensures
        has_key(cs, key_of(s)) ==> {
            let i = index_of(cs, key_of(s));
            let found = after_found(cs, s);
            &&& found.len() == cs.len()
            &&& found[i].service == s
            &&& found[i].failures == cs[i].failures
            &&& found[i].last_devices == cs[i].last_devices
            &&& forall|j: int| 0 <= j < cs.len() && j != i ==> #[trigger] found[j] == cs[j]
        },
        !has_key(cs, key_of(s)) ==> {
            let found = after_found(cs, s);
            &&& found.len() == cs.len() + 1
            &&& found[cs.len() as int].service == s
            &&& found[cs.len() as int].failures == 0
            &&& found[cs.len() as int].last_devices.len() == 0
            &&& forall|j: int| 0 <= j < cs.len() ==> #[trigger] found[j] == cs[j]
        },
{
}

/// A successful probe resets the failure count, and reporting the same
/// devices again sends nothing.
pub proof fn lemma_same_devices_quiet(c: CandidateView, devices: Seq<DeviceView>)
    ensures
        after_success(c, devices).0.failures == 0,
        after_success(c, devices).0.last_devices == devices,
        after_success(after_success(c, devices).0, devices).1.len() == 0,
{
}

/// Every device reported found is one that the probe of the service handed
/// over: when a probe of `s` (a record that was a candidate) finishes with
/// verified devices of `s`, as `StatusProbe` guarantees, each found event
/// carries a verified Pico I/O device at a usable address, under the name,
/// host, port (never 0) and interface of `s`; a failed probe reports no
/// device found.
pub proof fn lemma_found_events_verified(
    c: CandidateView,
    s: ServiceView,
    result: Result<Seq<DeviceView>, Seq<char>>,
)
    requires
        result matches Ok(v) ==> {
            &&& s.port != 0
            &&& forall|i: int| 0 <= i < v.len() ==> verified_device(s, #[trigger] v[i])
        },
    ensures
        forall|i: int|
            0 <= i < after_probe(c, result).1.len() ==> (#[trigger] after_probe(c, result).1[i] matches EventView::Found(d) ==> {
                &&& result is Ok
                &&& verified_device(s, d)
                &&& d.status.is_pico_io()
                &&& usable_address(d.address)
                &&& d.port != 0
            }),
{
    let ev = after_probe(c, result).1;
    match result {
        Ok(v) => {
            assert forall|i: int| 0 <= i < ev.len() implies (#[trigger] ev[i] matches EventView::Found(d) ==> {
                &&& verified_device(s, d)
                &&& d.port != 0
            }) by {
                if c.last_devices != v {
                    assert(ev[i] == EventView::Found(v[i]));
                }
            }
        },
        Err(_) => {
            let f = count_failure(c.failures);
            assert forall|i: int| 0 <= i < ev.len() implies !(#[trigger] ev[i] is Found) by {
                let w: Seq<EventView> = if f == 1 && c.last_devices.len() == 0 {
                    seq![EventView::Warning(not_answered_text(c.service.name))]
                } else {
                    Seq::empty()
                };
                if i < w.len() {
                    assert(ev[i] == w[i]);
                } else {
                    assert(ev[i] == EventView::Removed(c.service.name, c.service.interface_index));
                }
            }
        },
    }
}

/// The number of warnings among `events`.
pub open spec fn warning_count(events: Seq<EventView>) -> nat
    decreases events.len(),
{
    if events.len() == 0 {
        0
    } else {
        (if events[0] is Warning {
            1nat
        } else {
            0nat
        }) + warning_count(events.drop_first())
    }
}

/// A candidate and all the events after probes with `results`, in turn.
pub open spec fn after_probes(c: CandidateView, results: Seq<Result<Seq<DeviceView>, Seq<char>>>) -> (
    CandidateView,
    Seq<EventView>,
)
    decreases results.len(),
{
    if results.len() == 0 {
        (c, Seq::empty())
    } else {
        let (c1, e1) = after_probe(c, results[0]);
        let (c2, e2) = after_probes(c1, results.drop_first());
        (c2, e1 + e2)
    }
}

proof fn lemma_warning_count_add(a: Seq<EventView>, b: Seq<EventView>)
    ensures
        warning_count(a + b) == warning_count(a) + warning_count(b),
    decreases a.len(),
{
    if a.len() > 0 {
        lemma_warning_count_add(a.drop_first(), b);
        assert((a + b).drop_first() =~= a.drop_first() + b);
    } else {
        assert(a + b =~= b);
    }
}

proof fn lemma_no_more_warnings(c: CandidateView, results: Seq<Result<Seq<DeviceView>, Seq<char>>>)
    requires
        c.failures != 0 || c.last_devices.len() > 0,
        forall|i: int| 0 <= i < results.len() ==> (#[trigger] results[i] matches Ok(v) ==> v.len() > 0),
    ensures
        warning_count(after_probes(c, results).1) == 0,
    decreases results.len(),
{
    if results.len() > 0 {
        let (c1, e1) = after_probe(c, results[0]);
        assert(c1.failures != 0 || c1.last_devices.len() > 0);
        assert forall|i: int| 0 <= i < e1.len() implies !(#[trigger] e1[i] is Warning) by {
            match results[0] {
                Ok(v) => {
                    if c.last_devices != v {
                        assert(e1[i] == EventView::Found(v[i]));
                    }
                },
                Err(_) => {
                    assert(e1 =~= seq![EventView::Removed(c.service.name, c.service.interface_index)]
                        || e1 =~= Seq::<EventView>::empty());
                },
            }
        }
        lemma_found_only_no_warnings(e1);
        assert forall|i: int| 0 <= i < results.drop_first().len() implies (#[trigger] results.drop_first()[i] matches Ok(v) ==> v.len() > 0) by {
            assert(results.drop_first()[i] == results[i + 1]);
        }
        lemma_no_more_warnings(c1, results.drop_first());
        lemma_warning_count_add(e1, after_probes(c1, results.drop_first()).1);
    }
}

/// A candidate is warned about once at most: starting as discovery adds it
/// (no devices, no failures), and with every successful probe reporting
/// devices (as a finished probe does), the probes `results` give exactly
/// one warning when the first of them fails, and none otherwise. A record
/// replaced by a later browse keeps the devices and failure count, so this
/// holds for the candidate's whole life.
pub proof fn lemma_warned_once_per_candidate(
    c: CandidateView,
    results: Seq<Result<Seq<DeviceView>, Seq<char>>>,
)
    requires
        c.failures == 0,
        c.last_devices.len() == 0,
        forall|i: int| 0 <= i < results.len() ==> (#[trigger] results[i] matches Ok(v) ==> v.len() > 0),
    ensures
        warning_count(after_probes(c, results).1) == if results.len() > 0 && results[0] is Err {
            1nat
        } else {
            0nat
        },
{
    if results.len() > 0 {
        let (c1, e1) = after_probe(c, results[0]);
        assert forall|i: int| 0 <= i < results.drop_first().len() implies (#[trigger] results.drop_first()[i] matches Ok(v) ==> v.len() > 0) by {
            assert(results.drop_first()[i] == results[i + 1]);
        }
        lemma_no_more_warnings(c1, results.drop_first());
        lemma_warning_count_add(e1, after_probes(c1, results.drop_first()).1);
        reveal_with_fuel(warning_count, 3);
        if results[0] is Err {
            assert(e1 =~= seq![EventView::Warning(not_answered_text(c.service.name))]);
        } else {
            let v = results[0]->Ok_0;
            assert(c.last_devices != v);
            assert forall|i: int| 0 <= i < e1.len() implies !(#[trigger] e1[i] is Warning) by {
                assert(e1[i] == EventView::Found(v[i]));
            }
            assert(warning_count(e1) == 0) by {
                lemma_found_only_no_warnings(e1);
            }
        }
    }
}

proof fn lemma_found_only_no_warnings(es: Seq<EventView>)
    requires
        forall|i: int| 0 <= i < es.len() ==> !(#[trigger] es[i] is Warning),
    ensures
        warning_count(es) == 0,
    decreases es.len(),
{
    if es.len() > 0 {
        assert(!(es[0] is Warning));
        assert forall|i: int| 0 <= i < es.drop_first().len() implies !(#[trigger] es.drop_first()[i] is Warning) by {
            assert(es.drop_first()[i] == es[i + 1]);
        }
        lemma_found_only_no_warnings(es.drop_first());
    }
}

/// The candidates under observation while DNS-SD browsing runs, each
/// tracked under the key of its service (name and interface). The vector
/// stands for a map from key to candidate: no key occurs twice in it.
pub struct Discovery {
    candidates: Vec<Candidate>,
}

impl View for Discovery {
    type V = Seq<CandidateView>;

    closed spec fn view(&self) -> Seq<CandidateView> {
        self.candidates.deep_view()
    }
}

impl Discovery {
    #[verifier::type_invariant]
    closed spec fn inv(self) -> bool {
        well_kept(self.candidates.deep_view())
    }

    /// No candidates yet.
    pub fn new() -> (d: Discovery)
        ensures
            d@ == Seq::<CandidateView>::empty(),
    {
        let d = Discovery { candidates: Vec::new() };
        assert(d@ =~= Seq::<CandidateView>::empty());
        d
    }

    /// Takes note of a browsed service: a Pico I/O candidate replaces the
    /// record of the candidate with its key, keeping its devices and failure
    /// count, or becomes a new candidate; other services are ignored.
    pub fn on_service_found(&mut self, service: ServiceRecord)
        ensures
            well_kept(old(self)@),
            well_kept(final(self)@),
            final(self)@ == after_found(old(self)@, service@),
    {
        proof {
            use_type_invariant(&*self);
        }
        if !is_pico_io_candidate(&service) {
            return;
        }
        let ghost k = key_of(service@);
        let found = self.position(service.name.as_str(), service.interface_index);
        let mut cs: Vec<Candidate> = Vec::new();
        std::mem::swap(&mut cs, &mut self.candidates);
        let ghost before = cs.deep_view();
        match found {
            Some(i) => {
                let c = cs.remove(i);
                let updated = Candidate { service, last_devices: c.last_devices, failures: c.failures };
                cs.insert(i, updated);
                proof {
                    assert(cs.deep_view() =~= before.update(i as int, updated.deep_view()));
                    assert(index_of(before, k) == i as int);
                }
            },
            None => {
                let fresh = Candidate { service, last_devices: Vec::new(), failures: 0 };
                cs.push(fresh);
                proof {
                    assert(fresh.last_devices.deep_view() =~= Seq::<DeviceView>::empty());
                    assert(cs.deep_view() =~= before.push(fresh.deep_view()));
                }
            },
        }
        self.candidates = cs;
    }

    /// Takes note of a service that went away: its candidate, if any, is
    /// dropped and reported removed.
    pub fn on_service_removed(&mut self, name: String, interface_index: Option<u32>) -> (r: Option<
        DiscoveryEvent,
    >)
        ensures
            well_kept(old(self)@),
            well_kept(final(self)@),
            final(self)@ == after_removed(old(self)@, (name@, interface_index)),
            has_key(old(self)@, (name@, interface_index)) ==> (r matches Some(e) && e.deep_view()
                == EventView::Removed(name@, interface_index)),
            !has_key(old(self)@, (name@, interface_index)) ==> r is None,
            !has_key(final(self)@, (name@, interface_index)),
    {
        proof {
            use_type_invariant(&*self);
        }
        match self.position(name.as_str(), interface_index) {
            Some(i) => {
                let mut cs: Vec<Candidate> = Vec::new();
                std::mem::swap(&mut cs, &mut self.candidates);
                let ghost before = cs.deep_view();
                let _ = cs.remove(i);
                proof {
                    assert(cs.deep_view() =~= before.remove(i as int));
                    assert(index_of(before, (name@, interface_index)) == i as int);
                }
                self.candidates = cs;
                Some(DiscoveryEvent::Removed(RemovedDevice { service_name: name, interface_index }))
            },
            None => None,
        }
    }

    /// Whether there are candidates to probe.
    pub fn has_candidates(&self) -> (b: bool)
        ensures
            b == (self@.len() > 0),
            well_kept(self@),
    {
        proof {
            use_type_invariant(self);
        }
        self.candidates.len() > 0
    }

    /// The records of all candidates, in order, for the next round of probes.
    pub fn services(&self) -> (v: Vec<ServiceRecord>)
        ensures
            v@.len() == self@.len(),
            forall|i: int| 0 <= i < v@.len() ==> #[trigger] v@[i]@ == self@[i].service,
            well_kept(self@),
    {
        proof {
            use_type_invariant(self);
        }
        let mut v: Vec<ServiceRecord> = Vec::new();
        let mut i: usize = 0;
        while i < self.candidates.len()
            invariant
                i <= self@.len(),
                self@.len() == self.candidates@.len(),
                v@.len() == i,
                forall|j: int| 0 <= j < i ==> #[trigger] v@[j]@ == self@[j].service,
            decreases self.candidates.len() - i,
        {
            let s = self.candidates[i].service.clone();
            assert(self@[i as int].service == self.candidates@[i as int].service@);
            v.push(s);
            i = i + 1;
        }
        v
    }

    /// Takes note of the result of probing `service`: the candidate with its
    /// key, if it is still there, is updated and the resulting events are
    /// returned in the order they are to be sent.
    pub fn on_probe_result(&mut self, service: &ServiceRecord, result: Result<Vec<Device>, String>) -> (events: Vec<DiscoveryEvent>)
        ensures
            well_kept(old(self)@),
            well_kept(final(self)@),
            !has_key(old(self)@, key_of(service@)) ==> final(self)@ == old(self)@ && events@.len() == 0,
            has_key(old(self)@, key_of(service@)) ==> {
                let i = index_of(old(self)@, key_of(service@));
                let (c, ev) = after_probe(old(self)@[i], probe_result_view(result));
                &&& final(self)@ == old(self)@.update(i, c)
                &&& events.deep_view() == ev
            },
    {
        proof {
            use_type_invariant(&*self);
        }
        let ghost k = key_of(service@);
        let found = self.position(service.name.as_str(), service.interface_index);
        let i = match found {
            Some(i) => i,
            None => {
                return Vec::new();
            },
        };
        let mut cs: Vec<Candidate> = Vec::new();
        std::mem::swap(&mut cs, &mut self.candidates);
        let ghost before = cs.deep_view();
        proof {
            assert(index_of(before, k) == i as int);
        }
        let c = cs.remove(i);
        assert(c.deep_view() == before[i as int]);
        let mut events: Vec<DiscoveryEvent> = Vec::new();
        let ghost rv = probe_result_view(result);
        let updated = match result {
            Ok(devices) => {
                if !same_devices(&c.last_devices, &devices) {
                    let mut j: usize = 0;
                    while j < devices.len()
                        invariant
                            j <= devices@.len(),
                            events@.len() == j,
                            forall|m: int|
                                0 <= m < j ==> #[trigger] events.deep_view()[m] == EventView::Found(
                                    devices.deep_view()[m],
                                ),
                        decreases devices.len() - j,
                    {
                        let d = devices[j].clone();
                        let ghost prev = events@;
                        let ghost prev_dv = events.deep_view();
                        events.push(DiscoveryEvent::Found(d));
                        assert(events@ == prev.push(DiscoveryEvent::Found(d)));
                        assert(d@ == devices.deep_view()[j as int]);
                        assert(events.deep_view()[j as int] == EventView::Found(d@));
                        assert forall|m: int| 0 <= m < j implies #[trigger] events.deep_view()[m]
                            == EventView::Found(devices.deep_view()[m]) by {
                            assert(events@[m] == prev[m]);
                            assert(prev_dv[m] == EventView::Found(devices.deep_view()[m]));
                            assert(events.deep_view()[m] == prev_dv[m]);
                        }
                        j = j + 1;
                    }
                    assert(events.deep_view() =~= devices.deep_view().map_values(
                        |d: DeviceView| EventView::Found(d),
                    ));
                    let u = Candidate { service: c.service, last_devices: devices, failures: 0 };
                    assert(after_probe(before[i as int], rv) == (u.deep_view(), events.deep_view()));
                    u
                } else {
                    assert(events.deep_view() =~= Seq::<EventView>::empty());
                    let u = Candidate { service: c.service, last_devices: c.last_devices, failures: 0 };
                    assert(after_probe(before[i as int], rv) == (u.deep_view(), events.deep_view()));
                    u
                }
            },
            Err(_) => {
                let failures = c.failures.saturating_add(1);
                if failures == 1 && c.last_devices.len() == 0 {
                    let mut m = c.service.name.clone();
                    m.append(" was found, but its status endpoint has not answered yet. Retrying…");
                    events.push(DiscoveryEvent::Warning(m));
                }
                let drop = failures == LIVENESS_FAILURES && c.last_devices.len() > 0;
                if drop {
                    events.push(
                        DiscoveryEvent::Removed(
                            RemovedDevice {
                                service_name: c.service.name.clone(),
                                interface_index: c.service.interface_index,
                            },
                        ),
                    );
                }
                let ghost expected = after_failure(c.deep_view());
                assert(events.deep_view() =~= expected.1);
                let u = Candidate {
                    service: c.service,
                    last_devices: if drop {
                        Vec::new()
                    } else {
                        c.last_devices
                    },
                    failures,
                };
                assert(u.last_devices.deep_view() =~= expected.0.last_devices);
                assert(after_probe(before[i as int], rv) == (u.deep_view(), events.deep_view()));
                u
            },
        };
        let ghost uv = updated.deep_view();
        assert(after_probe(before[i as int], rv) == (uv, events.deep_view()));
        cs.insert(i, updated);
        proof {
            assert(cs.deep_view() =~= before.update(i as int, uv));
        }
        self.candidates = cs;
        events
    }

    /// The index of the candidate with key `(name, interface_index)`.
    fn position(&self, name: &str, interface_index: Option<u32>) -> (r: Option<usize>)
        ensures
            match r {
                Some(i) => i < self@.len() && key_of(self@[i as int].service) == (
                    name@,
                    interface_index,
                ),
                None => !has_key(self@, (name@, interface_index)),
            },
    {
        let mut i: usize = 0;
        while i < self.candidates.len()
            invariant
                i <= self@.len(),
                self@.len() == self.candidates@.len(),
                forall|j: int|
                    0 <= j < i ==> key_of(#[trigger] self@[j].service) != (name@, interface_index),
            decreases self.candidates.len() - i,
        {
            let c = &self.candidates[i];
            assert(self@[i as int].service == c.service@);
            if str_equal(c.service.name.as_str(), name) && c.service.interface_index
                == interface_index {
                return Some(i);
            }
            i = i + 1;
        }
        None
    }
}

} // verus!
