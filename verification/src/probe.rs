//! Probing a candidate service: which addresses are asked for their status,
//! how often a request is retried, what a response makes of the device, and
//! how much of a response body is read.

use vstd::prelude::*;
use crate::identity::{IpAddress, ServiceRecord, ServiceView};
use crate::model::{
    ApiStatus, ApiStatusView, Device, DeviceView, is_usable_address, origin_of, origin_text,
    usable_address,
};

verus! {

/// How many requests are made to one address before its last answer counts.
pub const PROBE_RETRIES: usize = 3;

/// The largest status response body that is read, in bytes.
pub const MAX_STATUS_BYTES: usize = 65536;

/// The status endpoint of `address:port`.
pub open spec fn status_url_text(address: [u8; 4], port: u16) -> Seq<char> {
    origin_text(address, port) + "/api/status"@
}

/// Whether the address at `i` is an IPv4 address that may be probed.
pub open spec fn is_target(addresses: Seq<IpAddress>, i: int) -> bool {
    match addresses[i] {
        IpAddress::V4(a) => usable_address(a),
        IpAddress::V6(_) => false,
    }
}

/// The IPv4 octets at `i` (meaningful where `is_target` holds).
pub open spec fn target_octets(addresses: Seq<IpAddress>, i: int) -> [u8; 4] {
    match addresses[i] {
        IpAddress::V4(a) => a,
        IpAddress::V6(_) => [0u8, 0u8, 0u8, 0u8],
    }
}

/// The first index at or after `from` that holds a probe target, or the
/// length of `addresses` when there is none.
pub open spec fn next_target(addresses: Seq<IpAddress>, from: int) -> int
    decreases addresses.len() - from,
{
    if from >= addresses.len() {
        addresses.len() as int
    } else if is_target(addresses, from) {
        from
    } else {
        next_target(addresses, from + 1)
    }
}

/// A response as the probe sees it: a parsed status, or an error message.
pub open spec fn response_view(r: Result<ApiStatus, String>) -> Result<ApiStatusView, Seq<char>> {
    match r {
        Ok(s) => Ok(s@),
        Err(e) => Err(e@),
    }
}

/// The device that a Pico I/O status at `address` makes of `service`.
pub open spec fn device_view(service: ServiceView, address: [u8; 4], status: ApiStatusView) -> DeviceView {
    DeviceView {
        service_name: service.name,
        host_name: service.host_name,
        address,
        port: service.port,
        interface_index: service.interface_index,
        status,
    }
}

/// The devices found so far and the last error, after the final response
/// for one address.
pub open spec fn record_response(
    service: ServiceView,
    devices: Seq<DeviceView>,
    last_error: Option<Seq<char>>,
    address: [u8; 4],
    response: Result<ApiStatusView, Seq<char>>,
) -> (Seq<DeviceView>, Option<Seq<char>>) {
    let url = status_url_text(address, service.port);
    match response {
        Ok(status) => if status.is_pico_io() {
            (devices.push(device_view(service, address, status)), last_error)
        } else {
            (devices, Some(url + " is not a Pico I/O device"@))
        },
        Err(e) => (devices, Some(url + ": "@ + e)),
    }
}

/// The outcome of a probe once every target has answered.
pub open spec fn probe_outcome(
    service: ServiceView,
    devices: Seq<DeviceView>,
    last_error: Option<Seq<char>>,
) -> Result<Seq<DeviceView>, Seq<char>> {
    if devices.len() == 0 {
        Err(
            match last_error {
                Some(e) => e,
                None => service.name + " was discovered without a usable IPv4 address"@,
            },
        )
    } else {
        Ok(devices)
    }
}

/// What the caller of a probe does next.
#[derive(Debug)]
pub enum ProbeStep {
    /// Request the status URL now.
    Request(String),
    /// Wait the retry delay, then request the status URL again.
    RetryAfterDelay(String),
    /// The probe is over, with the verified devices or the reason for none.
    Finished(Result<Vec<Device>, String>),
}

/// The view of a finished probe's result.
pub open spec fn result_view(r: Result<Vec<Device>, String>) -> Result<Seq<DeviceView>, Seq<char>> {
    match r {
        Ok(v) => Ok(v.deep_view()),
        Err(e) => Err(e@),
    }
}

/// The progress of probing one service's addresses in turn.
pub struct StatusProbe {
    service: ServiceRecord,
    next: usize,
    current: [u8; 4],
    url: String,
    attempt: usize,
    devices: Vec<Device>,
    last_error: Option<String>,
    awaiting: bool,
}

impl StatusProbe {
    /// The service being probed.
    pub closed spec fn service_view(&self) -> ServiceView {
        self.service@
    }

    /// Whether a request is outstanding; when not, the probe has finished.
    pub closed spec fn awaiting(&self) -> bool {
        self.awaiting
    }

    /// The address under probe.
    pub closed spec fn current(&self) -> [u8; 4] {
        self.current
    }

    /// Where the search for the next target resumes.
    pub closed spec fn next_index(&self) -> int {
        self.next as int
    }

    /// How many requests to the current address have failed so far.
    pub closed spec fn attempt(&self) -> int {
        self.attempt as int
    }

    /// The devices verified so far.
    pub closed spec fn devices(&self) -> Seq<DeviceView> {
        self.devices.deep_view()
    }

    /// The last error, if any.
    pub closed spec fn last_error(&self) -> Option<Seq<char>> {
        match self.last_error {
            Some(e) => Some(e@),
            None => None,
        }
    }

    /// All of the probe's state.
    pub closed spec fn state(&self) -> ProbeState {
        ProbeState {
            awaiting: self.awaiting,
            next: self.next as int,
            current: self.current,
            attempt: self.attempt as int,
            devices: self.devices(),
            last_error: self.last_error(),
        }
    }

    /// The probe's invariant: an outstanding request goes to a target
    /// address, is one of at most `PROBE_RETRIES`, and every device kept is a
    /// Pico I/O identity at a usable address of this service.
    pub closed spec fn wf(&self) -> bool {
        &&& self.awaiting ==> {
            &&& 0 < self.next <= self.service.addresses@.len()
            &&& is_target(self.service@.addresses, self.next - 1)
            &&& self.current == target_octets(self.service@.addresses, self.next - 1)
            &&& self.url@ == status_url_text(self.current, self.service.port)
            &&& self.attempt < PROBE_RETRIES
            &&& self.service.port != 0
        }
        &&& forall|i: int|
            0 <= i < self.devices@.len() ==> verified_device(
                self.service@,
                #[trigger] self.devices@[i]@,
            )
    }
}

/// An outstanding request is one of at most `PROBE_RETRIES` to its
/// address, and it goes to a usable IPv4 address of the service.
pub proof fn lemma_probe_bounded(p: StatusProbe)
    requires
        p.wf(),
    ensures
        p.awaiting() ==> {
            &&& 0 <= p.attempt() < PROBE_RETRIES
            &&& 0 < p.next_index() <= p.service_view().addresses.len()
            &&& is_target(p.service_view().addresses, p.next_index() - 1)
            &&& p.current() == target_octets(p.service_view().addresses, p.next_index() - 1)
            &&& usable_address(p.current())
        },
{
}

/// The usable IPv4 addresses among `addresses` from index `from` on, in
/// order: the addresses a probe requests.
pub open spec fn targets_from(addresses: Seq<IpAddress>, from: int) -> Seq<[u8; 4]>
    decreases addresses.len() - from,
{
    if from >= addresses.len() {
        Seq::empty()
    } else if is_target(addresses, from) {
        seq![target_octets(addresses, from)] + targets_from(addresses, from + 1)
    } else {
        targets_from(addresses, from + 1)
    }
}

/// How many requests an address takes, `failed` of its requests having
/// failed already, when `rs` are the responses to come: up to and including
/// the first response that is not an error, and `PROBE_RETRIES` at most.
pub open spec fn tries_from(rs: Seq<Result<ApiStatusView, Seq<char>>>, failed: int) -> int
    decreases PROBE_RETRIES - failed,
{
    if rs.len() == 0 || rs[0] is Ok || failed + 1 >= PROBE_RETRIES {
        1
    } else {
        1 + tries_from(rs.drop_first(), failed + 1)
    }
}

/// `n` copies of `x`.
pub open spec fn repeated<T>(x: T, n: int) -> Seq<T> {
    Seq::new(n as nat, |i: int| x)
}

/// What probing the addresses `us` in turn comes to, with `rs` the responses
/// in the order they arrive and `devices`, `last_error` recorded so far: the
/// URLs requested (each address's status URL once per try), the outcome, and
/// how many responses it takes.
pub open spec fn probe_plan(
    service: ServiceView,
    us: Seq<[u8; 4]>,
    rs: Seq<Result<ApiStatusView, Seq<char>>>,
    devices: Seq<DeviceView>,
    last_error: Option<Seq<char>>,
) -> (Seq<Seq<char>>, Result<Seq<DeviceView>, Seq<char>>, int)
    decreases us.len(),
{
    if us.len() == 0 {
        (Seq::empty(), probe_outcome(service, devices, last_error), 0)
    } else {
        let k = tries_from(rs, 0);
        let (d, e) = record_response(service, devices, last_error, us[0], rs[k - 1]);
        let (urls, outcome, n) = probe_plan(service, us.drop_first(), rs.skip(k), d, e);
        (repeated(status_url_text(us[0], service.port), k) + urls, outcome, k + n)
    }
}

/// Driving a probe from `st` and `step` with the responses `rs`, one per
/// request: the URLs requested, and the outcome once it finishes.
pub open spec fn probe_run(
    service: ServiceView,
    st: ProbeState,
    step: StepView,
    rs: Seq<Result<ApiStatusView, Seq<char>>>,
) -> (Seq<Seq<char>>, Option<Result<Seq<DeviceView>, Seq<char>>>)
    decreases rs.len(),
{
    match step {
        StepView::Finished(r) => (Seq::empty(), Some(r)),
        StepView::Request(u) | StepView::RetryAfterDelay(u) => if rs.len() == 0 {
            (seq![u], None)
        } else {
            let (st2, step2) = spec_respond(service, st, rs[0]);
            let (urls, outcome) = probe_run(service, st2, step2, rs.drop_first());
            (seq![u] + urls, outcome)
        },
    }
}

proof fn lemma_targets_from(addresses: Seq<IpAddress>, from: int)
    requires
        0 <= from <= addresses.len(),
    ensures
        ({
            let j = next_target(addresses, from);
            &&& from <= j <= addresses.len()
            &&& j < addresses.len() ==> is_target(addresses, j) && targets_from(addresses, from)
                == seq![target_octets(addresses, j)] + targets_from(addresses, j + 1)
            &&& j >= addresses.len() ==> targets_from(addresses, from) == Seq::<[u8; 4]>::empty()
        }),
    decreases addresses.len() - from,
{
    if from < addresses.len() && !is_target(addresses, from) {
        lemma_targets_from(addresses, from + 1);
    }
}

/// An address takes at least one request and at most `PROBE_RETRIES`.
pub proof fn lemma_tries_bounds(rs: Seq<Result<ApiStatusView, Seq<char>>>, failed: int)
    requires
        0 <= failed < PROBE_RETRIES,
    ensures
        1 <= tries_from(rs, failed) <= PROBE_RETRIES - failed,
    decreases PROBE_RETRIES - failed,
{
    if !(rs.len() == 0 || rs[0] is Ok || failed + 1 >= PROBE_RETRIES) {
        lemma_tries_bounds(rs.drop_first(), failed + 1);
    }
}

/// The probed addresses are exactly the usable IPv4 addresses reported, in
/// order: each one is usable and was reported as an IPv4 address, and each
/// usable IPv4 address reported appears; IPv6 addresses never do.
pub proof fn lemma_targets(addresses: Seq<IpAddress>, from: int)
    requires
        0 <= from <= addresses.len(),
    ensures
        targets_from(addresses, from).len() <= addresses.len() - from,
        forall|j: int|
            0 <= j < targets_from(addresses, from).len() ==> usable_address(
                #[trigger] targets_from(addresses, from)[j],
            ),
        forall|i: int|
            from <= i < addresses.len() && #[trigger] is_target(addresses, i) ==> targets_from(
                addresses,
                from,
            ).contains(target_octets(addresses, i)),
        forall|j: int|
            0 <= j < targets_from(addresses, from).len() ==> addresses.contains(
                IpAddress::V4(#[trigger] targets_from(addresses, from)[j]),
            ),
    decreases addresses.len() - from,
{
    if from < addresses.len() {
        lemma_targets(addresses, from + 1);
        let rest = targets_from(addresses, from + 1);
        let us = targets_from(addresses, from);
        if is_target(addresses, from) {
            assert(us == seq![target_octets(addresses, from)] + rest);
            assert(addresses[from] == IpAddress::V4(us[0]));
            assert forall|j: int| 0 <= j < us.len() implies usable_address(#[trigger] us[j])
                && addresses.contains(IpAddress::V4(us[j])) by {
                if j > 0 {
                    assert(us[j] == rest[j - 1]);
                }
            }
            assert forall|i: int|
                from <= i < addresses.len() && #[trigger] is_target(addresses, i) implies us.contains(
                    target_octets(addresses, i),
                ) by {
                if i == from {
                    assert(us[0] == target_octets(addresses, i));
                } else {
                    let k = choose|k: int| 0 <= k < rest.len() && rest[k] == target_octets(addresses, i);
                    assert(us[k + 1] == rest[k]);
                }
            }
        } else {
            assert(us == rest);
            assert forall|i: int|
                from <= i < addresses.len() && #[trigger] is_target(addresses, i) implies us.contains(
                    target_octets(addresses, i),
                ) by {
                assert(i != from);
            }
        }
    }
}

/// Recorded devices are reported whole: whenever a probe has recorded
/// devices it finishes with exactly those, and it fails only with none.
pub proof fn lemma_outcome_keeps_devices(
    service: ServiceView,
    devices: Seq<DeviceView>,
    last_error: Option<Seq<char>>,
)
    ensures
        devices.len() > 0 ==> probe_outcome(service, devices, last_error) == Ok::<
            Seq<DeviceView>,
            Seq<char>,
        >(devices),
        devices.len() == 0 ==> probe_outcome(service, devices, last_error) is Err,
{
}

/// The requests for one address: from an outstanding request to `st.current`
/// with `st.attempt` failures behind it, the probe requests that address's
/// status URL `tries_from` times, records the last response, and moves on.
proof fn lemma_run_address(
    service: ServiceView,
    st: ProbeState,
    step: StepView,
    rs: Seq<Result<ApiStatusView, Seq<char>>>,
)
    requires
        st.awaiting,
        0 <= st.attempt < PROBE_RETRIES,
        step == StepView::Request(status_url_text(st.current, service.port)) || step
            == StepView::RetryAfterDelay(status_url_text(st.current, service.port)),
        rs.len() >= tries_from(rs, st.attempt),
    ensures
        ({
            let k = tries_from(rs, st.attempt);
            let (d, e) = record_response(service, st.devices, st.last_error, st.current, rs[k - 1]);
            let (st2, step2) = spec_move_on(service, st.next, d, e);
            let rest = probe_run(service, st2, step2, rs.skip(k));
            probe_run(service, st, step, rs) == (
                repeated(status_url_text(st.current, service.port), k) + rest.0,
                rest.1,
            )
        }),
    decreases PROBE_RETRIES - st.attempt,
{
    let u = status_url_text(st.current, service.port);
    lemma_tries_bounds(rs, st.attempt);
    let k = tries_from(rs, st.attempt);
    if rs[0] is Ok || st.attempt + 1 >= PROBE_RETRIES {
        assert(rs.skip(1) =~= rs.drop_first());
        let (d, e) = record_response(service, st.devices, st.last_error, st.current, rs[0]);
        let rest = probe_run(service, spec_move_on(service, st.next, d, e).0, spec_move_on(service, st.next, d, e).1, rs.skip(1));
        assert(repeated(u, 1) + rest.0 =~= seq![u] + rest.0);
    } else {
        let st1 = ProbeState { attempt: st.attempt + 1, ..st };
        let step1 = StepView::RetryAfterDelay(u);
        let rs1 = rs.drop_first();
        lemma_tries_bounds(rs1, st1.attempt);
        let k1 = tries_from(rs1, st1.attempt);
        assert(k == 1 + k1);
        lemma_run_address(service, st1, step1, rs1);
        assert(k == 1 + k1);
        assert(rs1.skip(k1) =~= rs.skip(k));
        assert(rs1[k1 - 1] == rs[k - 1]);
        let (d, e) = record_response(service, st.devices, st.last_error, st.current, rs[k - 1]);
        let rest = probe_run(service, spec_move_on(service, st.next, d, e).0, spec_move_on(service, st.next, d, e).1, rs.skip(k));
        assert(seq![u] + (repeated(u, k1) + rest.0) =~= repeated(u, k) + rest.0);
    }
}

proof fn lemma_plan_count(
    service: ServiceView,
    us: Seq<[u8; 4]>,
    rs: Seq<Result<ApiStatusView, Seq<char>>>,
    devices: Seq<DeviceView>,
    last_error: Option<Seq<char>>,
)
    ensures
        probe_plan(service, us, rs, devices, last_error).2 >= 0,
    decreases us.len(),
{
    if us.len() > 0 {
        lemma_tries_bounds(rs, 0);
        let k = tries_from(rs, 0);
        let (d, e) = record_response(service, devices, last_error, us[0], rs[k - 1]);
        lemma_plan_count(service, us.drop_first(), rs.skip(k), d, e);
    }
}

proof fn lemma_run_from(
    service: ServiceView,
    from: int,
    devices: Seq<DeviceView>,
    last_error: Option<Seq<char>>,
    rs: Seq<Result<ApiStatusView, Seq<char>>>,
)
    requires
        0 <= from <= service.addresses.len(),
        rs.len() >= probe_plan(service, targets_from(service.addresses, from), rs, devices, last_error).2,
    ensures
        ({
            let plan = probe_plan(service, targets_from(service.addresses, from), rs, devices, last_error);
            let (st, step) = spec_move_on(service, from, devices, last_error);
            probe_run(service, st, step, rs) == (plan.0, Some(plan.1))
        }),
    decreases service.addresses.len() - from,
{
    lemma_targets_from(service.addresses, from);
    let j = next_target(service.addresses, from);
    let us = targets_from(service.addresses, from);
    if j < service.addresses.len() {
        let (st, step) = spec_move_on(service, from, devices, last_error);
        assert(us[0] == st.current);
        assert(us.drop_first() =~= targets_from(service.addresses, j + 1));
        lemma_tries_bounds(rs, 0);
        let k = tries_from(rs, 0);
        let (d, e) = record_response(service, devices, last_error, st.current, rs[k - 1]);
        lemma_plan_count(service, us.drop_first(), rs.skip(k), d, e);
        lemma_run_address(service, st, step, rs);
        lemma_run_from(service, j + 1, d, e, rs.skip(k));
    }
}

/// A whole probe of a service with a port, driven with the responses `rs`
/// (one per request, in order, as many as it takes): the requests are the
/// status URLs of the usable IPv4 addresses in the order they were reported,
/// each repeated while its responses fail, `PROBE_RETRIES` times at most;
/// each address's last response is recorded in turn, and the probe ends
/// with `probe_outcome` of what was recorded. A service without a port
/// fails before any request.
pub proof fn lemma_probe_run(service: ServiceView, rs: Seq<Result<ApiStatusView, Seq<char>>>)
    requires
        service.port != 0 ==> rs.len() >= probe_plan(
            service,
            targets_from(service.addresses, 0),
            rs,
            Seq::empty(),
            None,
        ).2,
    ensures
        service.port != 0 ==> ({
            let plan = probe_plan(service, targets_from(service.addresses, 0), rs, Seq::empty(), None);
            probe_run(service, spec_start(service).0, spec_start(service).1, rs) == (
                plan.0,
                Some(plan.1),
            )
        }),
        service.port == 0 ==> probe_run(service, spec_start(service).0, spec_start(service).1, rs)
            == (Seq::<Seq<char>>::empty(), Some(Err::<Seq<DeviceView>, Seq<char>>(
            service.name + " advertised TCP port 0"@,
        ))),
{
    if service.port != 0 {
        lemma_run_from(service, 0, Seq::empty(), None, rs);
    }
}

/// The last response each address in `us` got, in order, when `rs` are the
/// responses in the order they arrive.
pub open spec fn final_responses(us: Seq<[u8; 4]>, rs: Seq<Result<ApiStatusView, Seq<char>>>) -> Seq<
    Result<ApiStatusView, Seq<char>>,
>
    decreases us.len(),
{
    if us.len() == 0 {
        Seq::empty()
    } else {
        let k = tries_from(rs, 0);
        seq![rs[k - 1]] + final_responses(us.drop_first(), rs.skip(k))
    }
}

/// Whether a response shows a Pico I/O device.
pub open spec fn shows_pico_io(r: Result<ApiStatusView, Seq<char>>) -> bool {
    r matches Ok(status) && status.is_pico_io()
}

/// One device per address in `us` whose last response shows a Pico I/O
/// device, in the order of `us`.
pub open spec fn found_devices(
    service: ServiceView,
    us: Seq<[u8; 4]>,
    finals: Seq<Result<ApiStatusView, Seq<char>>>,
) -> Seq<DeviceView>
    decreases us.len(),
{
    if us.len() == 0 {
        Seq::empty()
    } else {
        (if shows_pico_io(finals[0]) {
            seq![device_view(service, us[0], finals[0]->Ok_0)]
        } else {
            Seq::empty()
        }) + found_devices(service, us.drop_first(), finals.drop_first())
    }
}

/// Why the last response for `a` shows no Pico I/O device.
pub open spec fn failure_text(service: ServiceView, a: [u8; 4], r: Result<ApiStatusView, Seq<char>>) -> Seq<char> {
    let url = status_url_text(a, service.port);
    match r {
        Ok(_) => url + " is not a Pico I/O device"@,
        Err(e) => url + ": "@ + e,
    }
}

/// The reason of the last address in `us` whose last response shows no
/// Pico I/O device, or `e` when there is none.
pub open spec fn last_failure(
    service: ServiceView,
    us: Seq<[u8; 4]>,
    finals: Seq<Result<ApiStatusView, Seq<char>>>,
    e: Option<Seq<char>>,
) -> Option<Seq<char>>
    decreases us.len(),
{
    if us.len() == 0 {
        e
    } else {
        last_failure(
            service,
            us.drop_first(),
            finals.drop_first(),
            if shows_pico_io(finals[0]) {
                e
            } else {
                Some(failure_text(service, us[0], finals[0]))
            },
        )
    }
}

proof fn lemma_plan_fold(
    service: ServiceView,
    us: Seq<[u8; 4]>,
    rs: Seq<Result<ApiStatusView, Seq<char>>>,
    devices: Seq<DeviceView>,
    last_error: Option<Seq<char>>,
)
    ensures
        ({
            let finals = final_responses(us, rs);
            &&& finals.len() == us.len()
            &&& probe_plan(service, us, rs, devices, last_error).1 == probe_outcome(
                service,
                devices + found_devices(service, us, finals),
                last_failure(service, us, finals, last_error),
            )
        }),
    decreases us.len(),
{
    let finals = final_responses(us, rs);
    if us.len() == 0 {
        assert(devices + found_devices(service, us, finals) =~= devices);
    } else {
        let k = tries_from(rs, 0);
        let r = rs[k - 1];
        let (d, e) = record_response(service, devices, last_error, us[0], r);
        lemma_plan_fold(service, us.drop_first(), rs.skip(k), d, e);
        let rest = final_responses(us.drop_first(), rs.skip(k));
        assert(finals.drop_first() =~= rest);
        assert(finals[0] == r);
        let tail = found_devices(service, us.drop_first(), rest);
        if shows_pico_io(r) {
            assert(d + tail =~= devices + found_devices(service, us, finals));
        } else {
            assert(d + tail =~= devices + found_devices(service, us, finals));
            match r {
                Ok(_) => {},
                Err(_) => {},
            }
        }
    }
}

proof fn lemma_all_failed(
    service: ServiceView,
    us: Seq<[u8; 4]>,
    finals: Seq<Result<ApiStatusView, Seq<char>>>,
    e: Option<Seq<char>>,
)
    requires
        us.len() > 0,
        finals.len() == us.len(),
        found_devices(service, us, finals).len() == 0,
    ensures
        last_failure(service, us, finals, e) == Some(failure_text(service, us.last(), finals.last())),
    decreases us.len(),
{
    let rest = found_devices(service, us.drop_first(), finals.drop_first());
    assert(!shows_pico_io(finals[0]));
    let e2 = Some(failure_text(service, us[0], finals[0]));
    if us.len() > 1 {
        lemma_all_failed(service, us.drop_first(), finals.drop_first(), e2);
    }
}

/// What a whole probe of a service with a port reports, with `rs` the
/// responses in the order they arrive: one device per usable IPv4 address
/// whose last response shows a Pico I/O device, in the order of the
/// addresses; an error exactly when there is none, giving the reason of the
/// last address probed, or saying that no usable address was there.
pub proof fn lemma_probe_result(service: ServiceView, rs: Seq<Result<ApiStatusView, Seq<char>>>)
    ensures
        ({
            let us = targets_from(service.addresses, 0);
            let finals = final_responses(us, rs);
            let found = found_devices(service, us, finals);
            let outcome = probe_plan(service, us, rs, Seq::empty(), None).1;
            &&& finals.len() == us.len()
            &&& outcome == probe_outcome(service, found, last_failure(service, us, finals, None))
            &&& outcome is Err <==> found.len() == 0
            &&& found.len() > 0 ==> outcome == Ok::<Seq<DeviceView>, Seq<char>>(found)
            &&& forall|i: int|
                0 <= i < us.len() && shows_pico_io(#[trigger] finals[i]) ==> found.contains(
                    device_view(service, us[i], finals[i]->Ok_0),
                )
            &&& forall|j: int|
                0 <= j < found.len() ==> exists|i: int|
                    0 <= i < us.len() && shows_pico_io(finals[i]) && #[trigger] found[j]
                        == device_view(service, us[i], finals[i]->Ok_0)
            &&& us.len() > 0 ==> (outcome matches Err(m) ==> m == failure_text(
                service,
                us.last(),
                finals.last(),
            ))
            &&& us.len() == 0 ==> outcome == Err::<Seq<DeviceView>, Seq<char>>(
                service.name + " was discovered without a usable IPv4 address"@,
            )
        }),
{
    let us = targets_from(service.addresses, 0);
    let finals = final_responses(us, rs);
    lemma_plan_fold(service, us, rs, Seq::empty(), None);
    assert(Seq::<DeviceView>::empty() + found_devices(service, us, finals) =~= found_devices(
        service,
        us,
        finals,
    ));
    if us.len() > 0 && found_devices(service, us, finals).len() == 0 {
        lemma_all_failed(service, us, finals, None);
    }
    lemma_found_devices_members(service, us, finals);
}

proof fn lemma_found_devices_members(
    service: ServiceView,
    us: Seq<[u8; 4]>,
    finals: Seq<Result<ApiStatusView, Seq<char>>>,
)
    requires
        finals.len() == us.len(),
    ensures
        ({
            let found = found_devices(service, us, finals);
            &&& forall|i: int|
                0 <= i < us.len() && shows_pico_io(#[trigger] finals[i]) ==> found.contains(
                    device_view(service, us[i], finals[i]->Ok_0),
                )
            &&& forall|j: int|
                0 <= j < found.len() ==> exists|i: int|
                    0 <= i < us.len() && shows_pico_io(finals[i]) && #[trigger] found[j]
                        == device_view(service, us[i], finals[i]->Ok_0)
        }),
    decreases us.len(),
{
    if us.len() > 0 {
        let us1 = us.drop_first();
        let f1 = finals.drop_first();
        lemma_found_devices_members(service, us1, f1);
        let head: Seq<DeviceView> = if shows_pico_io(finals[0]) {
            seq![device_view(service, us[0], finals[0]->Ok_0)]
        } else {
            Seq::empty()
        };
        let rest = found_devices(service, us1, f1);
        let found = found_devices(service, us, finals);
        assert(found == head + rest);
        assert forall|i: int|
            0 <= i < us.len() && shows_pico_io(#[trigger] finals[i]) implies found.contains(
                device_view(service, us[i], finals[i]->Ok_0),
            ) by {
            if i == 0 {
                assert(found[0] == device_view(service, us[0], finals[0]->Ok_0));
            } else {
                assert(us[i] == us1[i - 1]);
                assert(finals[i] == f1[i - 1]);
                assert(shows_pico_io(f1[i - 1]));
                let k = choose|k: int| 0 <= k < rest.len() && rest[k] == device_view(service, us1[i - 1], f1[i - 1]->Ok_0);
                assert(found[head.len() + k] == rest[k]);
            }
        }
        assert forall|j: int| 0 <= j < found.len() implies exists|i: int|
            0 <= i < us.len() && shows_pico_io(finals[i]) && #[trigger] found[j]
                == device_view(service, us[i], finals[i]->Ok_0) by {
            if j < head.len() {
                assert(found[j] == device_view(service, us[0], finals[0]->Ok_0));
            } else {
                assert(found[j] == rest[j - head.len()]);
                let i1 = choose|i1: int|
                    0 <= i1 < us1.len() && shows_pico_io(f1[i1]) && #[trigger] rest[j - head.len()]
                        == device_view(service, us1[i1], f1[i1]->Ok_0);
                assert(us[i1 + 1] == us1[i1] && finals[i1 + 1] == f1[i1]);
            }
        }
    }
}

/// A device that a probe of `service` may report: a Pico I/O identity at a
/// usable address, under the service's name, host, port and interface.
pub open spec fn verified_device(service: ServiceView, d: DeviceView) -> bool {
    &&& d.status.is_pico_io()
    &&& usable_address(d.address)
    &&& d.service_name == service.name
    &&& d.host_name == service.host_name
    &&& d.port == service.port
    &&& d.interface_index == service.interface_index
}

/// The state of a probe as its contract speaks of it: whether a request is
/// outstanding, where the search for the next target resumes, the address
/// under probe, how many requests to it have failed, and what is recorded.
pub struct ProbeState {
    pub awaiting: bool,
    pub next: int,
    pub current: [u8; 4],
    pub attempt: int,
    pub devices: Seq<DeviceView>,
    pub last_error: Option<Seq<char>>,
}

/// The contents of a [`ProbeStep`].
pub enum StepView {
    Request(Seq<char>),
    RetryAfterDelay(Seq<char>),
    Finished(Result<Seq<DeviceView>, Seq<char>>),
}

/// The view of a step.
pub open spec fn step_view(step: ProbeStep) -> StepView {
    match step {
        ProbeStep::Request(u) => StepView::Request(u@),
        ProbeStep::RetryAfterDelay(u) => StepView::RetryAfterDelay(u@),
        ProbeStep::Finished(r) => StepView::Finished(result_view(r)),
    }
}

/// Whether a probe's state is `model`: the same in every part while a
/// request is outstanding, and finished when `model` is.
pub open spec fn agrees(st: ProbeState, model: ProbeState) -> bool {
    &&& st.awaiting == model.awaiting
    &&& model.awaiting ==> st == model
}

/// The state and step after moving on from index `from` of the service's
/// addresses with `devices` and `last_error` recorded: the next target is
/// requested, or, when there is none, the probe finishes.
pub open spec fn spec_move_on(
    service: ServiceView,
    from: int,
    devices: Seq<DeviceView>,
    last_error: Option<Seq<char>>,
) -> (ProbeState, StepView) {
    let j = next_target(service.addresses, from);
    if j < service.addresses.len() {
        let a = target_octets(service.addresses, j);
        (
            ProbeState { awaiting: true, next: j + 1, current: a, attempt: 0, devices, last_error },
            StepView::Request(status_url_text(a, service.port)),
        )
    } else {
        (
            ProbeState {
                awaiting: false,
                next: from,
                current: [0u8, 0u8, 0u8, 0u8],
                attempt: 0,
                devices,
                last_error,
            },
            StepView::Finished(probe_outcome(service, devices, last_error)),
        )
    }
}

/// The state and first step of a probe of `service`.
pub open spec fn spec_start(service: ServiceView) -> (ProbeState, StepView) {
    if service.port == 0 {
        (
            ProbeState {
                awaiting: false,
                next: 0,
                current: [0u8, 0u8, 0u8, 0u8],
                attempt: 0,
                devices: Seq::empty(),
                last_error: None,
            },
            StepView::Finished(Err(service.name + " advertised TCP port 0"@)),
        )
    } else {
        spec_move_on(service, 0, Seq::empty(), None)
    }
}

/// The state and next step after the response `r` to the outstanding
/// request: a failure is retried until `PROBE_RETRIES` requests were made,
/// and otherwise the response is recorded for the address and the probe
/// moves on.
pub open spec fn spec_respond(
    service: ServiceView,
    st: ProbeState,
    r: Result<ApiStatusView, Seq<char>>,
) -> (ProbeState, StepView) {
    if r is Err && st.attempt + 1 < PROBE_RETRIES {
        (
            ProbeState { attempt: st.attempt + 1, ..st },
            StepView::RetryAfterDelay(status_url_text(st.current, service.port)),
        )
    } else {
        let (devices, last_error) = record_response(
            service,
            st.devices,
            st.last_error,
            st.current,
            r,
        );
        spec_move_on(service, st.next, devices, last_error)
    }
}

/// Whether `p` and `step` are what moving on from `from` with `devices`
/// and `last_error` recorded gives.
pub open spec fn moved_on(
    p: StatusProbe,
    step: ProbeStep,
    service: ServiceView,
    from: int,
    devices: Seq<DeviceView>,
    last_error: Option<Seq<char>>,
) -> bool {
    let (model, model_step) = spec_move_on(service, from, devices, last_error);
    agrees(p.state(), model) && step_view(step) == model_step
}

/// A finished probe reports at least one device, each verified, or an error.
pub open spec fn finished_well(service: ServiceView, step: ProbeStep) -> bool {
    step matches ProbeStep::Finished(Ok(v)) ==> {
        &&& v@.len() > 0
        &&& service.port != 0
        &&& forall|i: int| 0 <= i < v@.len() ==> verified_device(service, #[trigger] v@[i]@)
    }
}

fn find_target(addresses: &Vec<IpAddress>, from: usize) -> (r: usize)
    requires
        from <= addresses@.len(),
    ensures
        r == next_target(addresses@, from as int),
        from <= r <= addresses@.len(),
        r < addresses@.len() ==> is_target(addresses@, r as int),
{
    let mut i = from;
    while i < addresses.len()
        invariant
            from <= i <= addresses@.len(),
            next_target(addresses@, from as int) == next_target(addresses@, i as int),
        decreases addresses.len() - i,
    {
        let usable = match addresses[i] {
            IpAddress::V4(a) => is_usable_address(a),
            IpAddress::V6(_) => false,
        };
        if usable {
            return i;
        }
        i = i + 1;
    }
    i
}

fn octets_at(addresses: &Vec<IpAddress>, i: usize) -> (a: [u8; 4])
    requires
        i < addresses@.len(),
    ensures
        a == target_octets(addresses@, i as int),
{
    match addresses[i] {
        IpAddress::V4(a) => a,
        IpAddress::V6(_) => [0u8, 0u8, 0u8, 0u8],
    }
}

impl StatusProbe {
    /// Moves to the next target at or after `self.next`, or finishes.
    fn move_on(&mut self) -> (step: ProbeStep)
        requires
            old(self).next <= old(self).service.addresses@.len(),
            old(self).service.port != 0,
            forall|i: int|
                0 <= i < old(self).devices@.len() ==> verified_device(
                    old(self).service@,
                    #[trigger] old(self).devices@[i]@,
                ),
        ensures
            final(self).wf(),
            final(self).service == old(self).service,
            moved_on(
                *final(self),
                step,
                old(self).service@,
                old(self).next as int,
                old(self).devices(),
                old(self).last_error(),
            ),
            finished_well(old(self).service@, step),
    {
        let j = find_target(&self.service.addresses, self.next);
        if j < self.service.addresses.len() {
            let a = octets_at(&self.service.addresses, j);
            self.current = a;
            self.next = j + 1;
            self.attempt = 0;
            self.url = status_url(a, self.service.port);
            self.awaiting = true;
            ProbeStep::Request(self.url.clone())
        } else {
            self.awaiting = false;
            let mut devices: Vec<Device> = Vec::new();
            std::mem::swap(&mut devices, &mut self.devices);
            let mut last_error: Option<String> = None;
            std::mem::swap(&mut last_error, &mut self.last_error);
            if devices.len() == 0 {
                let message = match last_error {
                    Some(e) => e,
                    None => {
                        let mut m = self.service.name.clone();
                        m.append(" was discovered without a usable IPv4 address");
                        m
                    },
                };
                ProbeStep::Finished(Err(message))
            } else {
                ProbeStep::Finished(Ok(devices))
            }
        }
    }

    /// Begins probing `service`: a service that advertises port 0 fails at
    /// once; otherwise its first usable IPv4 address is requested.
    pub fn start(service: ServiceRecord) -> (r: (StatusProbe, ProbeStep))
        ensures
            r.0.wf(),
            r.0.service_view() == service@,
            agrees(r.0.state(), spec_start(service@).0),
            step_view(r.1) == spec_start(service@).1,
            finished_well(service@, r.1),
    {
        let mut probe = StatusProbe {
            service,
            next: 0,
            current: [0u8, 0u8, 0u8, 0u8],
            url: String::new(),
            attempt: 0,
            devices: Vec::new(),
            last_error: None,
            awaiting: false,
        };
        if probe.service.port == 0 {
            let mut m = probe.service.name.clone();
            m.append(" advertised TCP port 0");
            return (probe, ProbeStep::Finished(Err(m)));
        }
        assert(probe.devices() =~= Seq::<DeviceView>::empty());
        let step = probe.move_on();
        (probe, step)
    }

    /// Takes the response to the outstanding request. A failed request is
    /// retried after a delay until `PROBE_RETRIES` requests have been made;
    /// the last response then decides for the address, and the probe moves
    /// on to the next target or finishes.
    pub fn on_response(&mut self, response: Result<ApiStatus, String>) -> (step: ProbeStep)
        requires
            old(self).wf(),
            old(self).awaiting(),
        ensures
            final(self).wf(),
            final(self).service_view() == old(self).service_view(),
            finished_well(old(self).service_view(), step),
            agrees(
                final(self).state(),
                spec_respond(old(self).service_view(), old(self).state(), response_view(response)).0,
            ),
            step_view(step) == spec_respond(
                old(self).service_view(),
                old(self).state(),
                response_view(response),
            ).1,
    {
        if response.is_err() && self.attempt + 1 < PROBE_RETRIES {
            self.attempt = self.attempt + 1;
            return ProbeStep::RetryAfterDelay(self.url.clone());
        }
        let ghost before = self.devices.deep_view();
        match response {
            Ok(status) => {
                if status.is_pico_io() {
                    let device = Device {
                        service_name: self.service.name.clone(),
                        host_name: self.service.host_name.clone(),
                        address: self.current,
                        port: self.service.port,
                        interface_index: self.service.interface_index,
                        status,
                    };
                    self.devices.push(device);
                    assert(self.devices.deep_view() =~= before.push(
                        device_view(self.service@, self.current, status@),
                    ));
                } else {
                    let mut m = self.url.clone();
                    m.append(" is not a Pico I/O device");
                    self.last_error = Some(m);
                }
            },
            Err(e) => {
                let mut m = self.url.clone();
                m.append(": ");
                m.append(e.as_str());
                self.last_error = Some(m);
            },
        }
        self.move_on()
    }
}

/// The status URL of `address:port`.
pub fn status_url(address: [u8; 4], port: u16) -> (s: String)
    ensures
        s@ == status_url_text(address, port),
{
    let mut s = origin_of(address, port);
    s.append("/api/status");
    s
}


/// The message for a status response body over `MAX_STATUS_BYTES`.
pub open spec fn too_large_text() -> Seq<char> {
    "response exceeds 65536 bytes"@
}

/// Checks a declared `Content-Length` against `MAX_STATUS_BYTES`.
pub fn check_content_length(length: Option<u64>) -> (r: Result<(), String>)
    ensures
        r is Err <==> (length matches Some(n) && n > MAX_STATUS_BYTES),
        r matches Err(m) ==> m@ == too_large_text(),
{
    match length {
        Some(n) => if n > MAX_STATUS_BYTES as u64 {
            Err(String::from_str("response exceeds 65536 bytes"))
        } else {
            Ok(())
        },
        None => Ok(()),
    }
}

/// The body after one more chunk, or the error when the body would then
/// exceed `MAX_STATUS_BYTES`.
pub open spec fn append_step(body: Seq<u8>, chunk: Seq<u8>) -> Result<Seq<u8>, Seq<char>> {
    if body.len() + chunk.len() > MAX_STATUS_BYTES {
        Err(too_large_text())
    } else {
        Ok(body + chunk)
    }
}

/// Appending `chunks` in turn to `body`, stopping at the first refusal.
pub open spec fn gather(body: Seq<u8>, chunks: Seq<Seq<u8>>) -> Result<Seq<u8>, Seq<char>>
    decreases chunks.len(),
{
    if chunks.len() == 0 {
        Ok(body)
    } else {
        match append_step(body, chunks[0]) {
            Ok(b) => gather(b, chunks.drop_first()),
            Err(m) => Err(m),
        }
    }
}

/// The total length of `chunks`.
pub open spec fn total_len(chunks: Seq<Seq<u8>>) -> int
    decreases chunks.len(),
{
    if chunks.len() == 0 {
        0
    } else {
        chunks[0].len() + total_len(chunks.drop_first())
    }
}

/// The chunks one after another.
pub open spec fn joined(chunks: Seq<Seq<u8>>) -> Seq<u8>
    decreases chunks.len(),
{
    if chunks.len() == 0 {
        Seq::empty()
    } else {
        chunks[0] + joined(chunks.drop_first())
    }
}

/// Reading a status body chunk by chunk from `body` fails, with the size
/// message, exactly when all of it together exceeds `MAX_STATUS_BYTES`;
/// otherwise the body is everything received, in order. A body of exactly
/// `MAX_STATUS_BYTES` bytes is accepted. `body` starts within the limit.
pub proof fn lemma_gather(body: Seq<u8>, chunks: Seq<Seq<u8>>)
    requires
        body.len() <= MAX_STATUS_BYTES,
    ensures
        total_len(chunks) >= 0,
        gather(body, chunks) is Err <==> body.len() + total_len(chunks) > MAX_STATUS_BYTES,
        gather(body, chunks) matches Err(m) ==> m == too_large_text(),
        gather(body, chunks) matches Ok(b) ==> b == body + joined(chunks),
    decreases chunks.len(),
{
    lemma_total_len(chunks);
    if chunks.len() > 0 {
        lemma_total_len(chunks.drop_first());
        if body.len() + chunks[0].len() <= MAX_STATUS_BYTES {
            lemma_gather(body + chunks[0], chunks.drop_first());
            assert(body + chunks[0] + joined(chunks.drop_first()) =~= body + joined(chunks));
        }
    } else {
        assert(body + joined(chunks) =~= body);
    }
}

proof fn lemma_total_len(chunks: Seq<Seq<u8>>)
    ensures
        total_len(chunks) >= 0,
    decreases chunks.len(),
{
    if chunks.len() > 0 {
        lemma_total_len(chunks.drop_first());
    }
}

/// Appends a received chunk to the status body unless the body would then
/// exceed `MAX_STATUS_BYTES`, in which case the body is left as it was.
pub fn append_chunk(body: &mut Vec<u8>, chunk: &[u8]) -> (r: Result<(), String>)
    ensures
        r is Err <==> old(body)@.len() + chunk@.len() > MAX_STATUS_BYTES,
        r matches Err(m) ==> m@ == too_large_text() && final(body)@ == old(body)@,
        r is Ok ==> final(body)@ == old(body)@ + chunk@,
        final(body)@.len() <= MAX_STATUS_BYTES || final(body)@ == old(body)@,
        match append_step(old(body)@, chunk@) {
            Ok(b) => r is Ok && final(body)@ == b,
            Err(m) => (r matches Err(e) && e@ == m),
        },
{
    if body.len().saturating_add(chunk.len()) > MAX_STATUS_BYTES {
        return Err(String::from_str("response exceeds 65536 bytes"));
    }
    let ghost before = body@;
    let mut i: usize = 0;
    while i < chunk.len()
        invariant
            i <= chunk@.len(),
            body@ == before + chunk@.subrange(0, i as int),
        decreases chunk.len() - i,
    {
        body.push(chunk[i]);
        i = i + 1;
        assert(body@ =~= before + chunk@.subrange(0, i as int));
    }
    assert(chunk@.subrange(0, chunk@.len() as int) =~= chunk@);
    Ok(())
}

} // verus!
