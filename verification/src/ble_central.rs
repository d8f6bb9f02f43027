//! BLE central role: the command protocol between HTTP handlers and the BLE
//! task, the task's decisions (scan, connect, disconnect, refuse), and the
//! collection of scan results from advertising reports.
//!
//! The radio work itself (the host stack, scanning, connecting, timers and
//! the command/response channels) is driven by the caller, which feeds each
//! outcome back into `step`.
use vstd::prelude::*;
use crate::text::{string_from_utf8_lossy, utf8_lossy};
use trouble_host::advertise::AdStructure;

verus! {

/// Most entries the seen-address cache holds.
pub const SCAN_CACHE: usize = 32;

/// A scan stops collecting once it holds this many results.
pub const MAX_RESULTS: usize = 32;

/// A discovered device from a scan.
#[derive(Clone, Debug)]
pub struct ScanResult {
    pub addr: [u8; 6],
    pub addr_type: u8,
    pub name: String,
    pub rssi: i8,
}

/// The mathematical content of a scan result.
pub struct ScanResultView {
    pub addr: [u8; 6],
    pub addr_type: u8,
    pub name: Seq<char>,
    pub rssi: i8,
}

impl View for ScanResult {
    type V = ScanResultView;

    open spec fn view(&self) -> ScanResultView {
        ScanResultView { addr: self.addr, addr_type: self.addr_type, name: self.name@, rssi: self.rssi }
    }
}

/// Commands sent from HTTP handlers to the BLE task.
#[derive(Debug)]
pub enum BleCmd {
    Scan,
    Connect([u8; 6], u8),
    Disconnect,
    DiscoverServices,
    ReadCharacteristic(u16),
    WriteCharacteristic(u16, Vec<u8>),
}

/// Responses from the BLE task back to HTTP handlers.
#[derive(Debug)]
pub enum BleResp {
    ScanResults(Vec<ScanResult>),
    Connected,
    Disconnected,
    Services(Vec<String>),
    ReadData(Vec<u8>),
    Written,
    Error(String),
}

/// The text of the error a handler reports for a response of the wrong kind.
pub open spec fn unexpected_response() -> Seq<char> {
    "unexpected response"@
}

impl BleResp {
    /// The outcome of a scan request as its handler reports it.
    pub fn into_scan_results(self) -> (r: Result<Vec<ScanResult>, String>)
        ensures
            (match self {
                BleResp::ScanResults(v) => r == Ok::<Vec<ScanResult>, String>(v),
                BleResp::Error(e) => r == Err::<Vec<ScanResult>, String>(e),
                _ => r matches Err(e) && e@ == unexpected_response(),
            }),
    {
        match self {
            BleResp::ScanResults(v) => Ok(v),
            BleResp::Error(e) => Err(e),
            _ => Err("unexpected response".to_owned()),
        }
    }

    /// The outcome of a connect request as its handler reports it.
    pub fn into_connected(self) -> (r: Result<(), String>)
        ensures
            (match self {
                BleResp::Connected => r == Ok::<(), String>(()),
                BleResp::Error(e) => r == Err::<(), String>(e),
                _ => r matches Err(e) && e@ == unexpected_response(),
            }),
    {
        match self {
            BleResp::Connected => Ok(()),
            BleResp::Error(e) => Err(e),
            _ => Err("unexpected response".to_owned()),
        }
    }

    /// The outcome of a disconnect request as its handler reports it.
    pub fn into_disconnected(self) -> (r: Result<(), String>)
        ensures
            (match self {
                BleResp::Disconnected => r == Ok::<(), String>(()),
                BleResp::Error(e) => r == Err::<(), String>(e),
                _ => r matches Err(e) && e@ == unexpected_response(),
            }),
    {
        match self {
            BleResp::Disconnected => Ok(()),
            BleResp::Error(e) => Err(e),
            _ => Err("unexpected response".to_owned()),
        }
    }

    /// The outcome of a service discovery request as its handler reports it.
    pub fn into_services(self) -> (r: Result<Vec<String>, String>)
        ensures
            (match self {
                BleResp::Services(s) => r == Ok::<Vec<String>, String>(s),
                BleResp::Error(e) => r == Err::<Vec<String>, String>(e),
                _ => r matches Err(e) && e@ == unexpected_response(),
            }),
    {
        match self {
            BleResp::Services(s) => Ok(s),
            BleResp::Error(e) => Err(e),
            _ => Err("unexpected response".to_owned()),
        }
    }

    /// The outcome of a characteristic read as its handler reports it.
    pub fn into_read_data(self) -> (r: Result<Vec<u8>, String>)
        ensures
            (match self {
                BleResp::ReadData(d) => r == Ok::<Vec<u8>, String>(d),
                BleResp::Error(e) => r == Err::<Vec<u8>, String>(e),
                _ => r matches Err(e) && e@ == unexpected_response(),
            }),
    {
        match self {
            BleResp::ReadData(d) => Ok(d),
            BleResp::Error(e) => Err(e),
            _ => Err("unexpected response".to_owned()),
        }
    }

    /// The outcome of a characteristic write as its handler reports it.
    pub fn into_written(self) -> (r: Result<(), String>)
        ensures
            (match self {
                BleResp::Written => r == Ok::<(), String>(()),
                BleResp::Error(e) => r == Err::<(), String>(e),
                _ => r matches Err(e) && e@ == unexpected_response(),
            }),
    {
        match self {
            BleResp::Written => Ok(()),
            BleResp::Error(e) => Err(e),
            _ => Err("unexpected response".to_owned()),
        }
    }
}


// ─── the BLE task ───────────────────────────────────

/// Where the BLE task stands.
#[derive(Clone, Copy, Debug, PartialEq, Eq, Structural)]
pub enum LinkState {
    /// Waiting for a command, no connection.
    Idle,
    /// A scan is running; its results are awaited.
    Scanning,
    /// A connection attempt is running.
    Connecting,
    /// Connected to a peripheral.
    Connected,
}

/// What the BLE task learns next: a command, or how the radio work it
/// started ended (the error text describes the radio error).
pub enum BleEvent {
    Command(BleCmd),
    ScanDone(Result<Vec<ScanResult>, String>),
    ConnectDone(Result<(), String>),
}

/// Radio work for the caller to start.
#[derive(Clone, Copy, Debug, PartialEq, Eq)]
pub enum LinkOp {
    Nothing,
    /// Scan for three seconds, then report the collected results.
    StartScan,
    /// Connect to the device with this (random) address.
    StartConnect([u8; 6]),
    /// Close the current connection.
    CloseLink,
}

/// The task's decision: its next state, the radio work to start, and the
/// response to send back, if any.
pub struct BleStep {
    pub state: LinkState,
    pub op: LinkOp,
    pub reply: Option<BleResp>,
}

/// The events the task can receive in a state: commands while idle or
/// connected, the end of a scan while scanning, the end of a connection
/// attempt while connecting.
pub open spec fn event_fits(state: LinkState, event: BleEvent) -> bool {
    match event {
        BleEvent::Command(_) => state == LinkState::Idle || state == LinkState::Connected,
        BleEvent::ScanDone(_) => state == LinkState::Scanning,
        BleEvent::ConnectDone(_) => state == LinkState::Connecting,
    }
}

/// The reply is an error whose text is `msg`.
pub open spec fn is_error_reply(reply: Option<BleResp>, msg: Seq<char>) -> bool {
    reply matches Some(BleResp::Error(e)) && e@ == msg
}

/// What `step` decides on `event` in `state`: its next state, the radio
/// work it starts and its reply.
///
/// Idle: a scan or connect request starts that work; any other request is
/// answered "not connected". Connected: a disconnect request closes the link
/// and is answered `Disconnected`; any other request is answered
/// "already connected" and the link stays up. A finished scan is answered
/// with its results or "scan: <error>"; a finished connection attempt with
/// `Connected` or "connect: <error>".
pub open spec fn step_decides(state: LinkState, event: BleEvent, s: BleStep) -> bool {
    match event {
        BleEvent::Command(cmd) => if state == LinkState::Idle {
            match cmd {
                BleCmd::Scan => s.state == LinkState::Scanning && s.op == LinkOp::StartScan
                    && s.reply is None,
                BleCmd::Connect(addr, _) => s.state == LinkState::Connecting && s.op
                    == LinkOp::StartConnect(addr) && s.reply is None,
                _ => s.state == LinkState::Idle && s.op == LinkOp::Nothing && is_error_reply(
                    s.reply,
                    "not connected"@,
                ),
            }
        } else {
            match cmd {
                BleCmd::Disconnect => s.state == LinkState::Idle && s.op == LinkOp::CloseLink
                    && (s.reply matches Some(BleResp::Disconnected)),
                _ => s.state == LinkState::Connected && s.op == LinkOp::Nothing
                    && is_error_reply(s.reply, "already connected"@),
            }
        },
        BleEvent::ScanDone(Ok(results)) => s.state == LinkState::Idle && s.op
            == LinkOp::Nothing && (s.reply matches Some(BleResp::ScanResults(v)) && v
            == results),
        BleEvent::ScanDone(Err(detail)) => s.state == LinkState::Idle && s.op
            == LinkOp::Nothing && is_error_reply(s.reply, "scan: "@ + detail@),
        BleEvent::ConnectDone(Ok(())) => s.state == LinkState::Connected && s.op
            == LinkOp::Nothing && (s.reply matches Some(BleResp::Connected)),
        BleEvent::ConnectDone(Err(detail)) => s.state == LinkState::Idle && s.op
            == LinkOp::Nothing && is_error_reply(s.reply, "connect: "@ + detail@),
    }
}

/// Decides what the BLE task does on `event` in `state`, as
/// `step_decides` states it. Every command thus gets exactly one reply.
pub fn step(state: LinkState, event: BleEvent) -> (s: BleStep)
    requires
        event_fits(state, event),
    ensures
        step_decides(state, event, s),
{
    match event {
        BleEvent::Command(cmd) => {
            if state == LinkState::Idle {
                match cmd {
                    BleCmd::Scan => BleStep { state: LinkState::Scanning, op: LinkOp::StartScan, reply: None },
                    BleCmd::Connect(addr, _t) => BleStep {
                        state: LinkState::Connecting,
                        op: LinkOp::StartConnect(addr),
                        reply: None,
                    },
                    _ => BleStep {
                        state: LinkState::Idle,
                        op: LinkOp::Nothing,
                        reply: Some(BleResp::Error("not connected".to_owned())),
                    },
                }
            } else {
                match cmd {
                    BleCmd::Disconnect => BleStep {
                        state: LinkState::Idle,
                        op: LinkOp::CloseLink,
                        reply: Some(BleResp::Disconnected),
                    },
                    _ => BleStep {
                        state: LinkState::Connected,
                        op: LinkOp::Nothing,
                        reply: Some(BleResp::Error("already connected".to_owned())),
                    },
                }
            }
        },
        BleEvent::ScanDone(Ok(results)) => BleStep {
            state: LinkState::Idle,
            op: LinkOp::Nothing,
            reply: Some(BleResp::ScanResults(results)),
        },
        BleEvent::ScanDone(Err(detail)) => BleStep {
            state: LinkState::Idle,
            op: LinkOp::Nothing,
            reply: Some(BleResp::Error("scan: ".to_owned().concat(detail.as_str()))),
        },
        BleEvent::ConnectDone(Ok(())) => BleStep {
            state: LinkState::Connected,
            op: LinkOp::Nothing,
            reply: Some(BleResp::Connected),
        },
        BleEvent::ConnectDone(Err(detail)) => BleStep {
            state: LinkState::Idle,
            op: LinkOp::Nothing,
            reply: Some(BleResp::Error("connect: ".to_owned().concat(detail.as_str()))),
        },
    }
}


/// A reply of the kind that answers `cmd`, or an error.
pub open spec fn answers(cmd: BleCmd, reply: BleResp) -> bool {
    match reply {
        BleResp::Error(_) => true,
        BleResp::ScanResults(_) => cmd is Scan,
        BleResp::Connected => cmd is Connect,
        BleResp::Disconnected => cmd is Disconnect,
        BleResp::Services(_) => cmd is DiscoverServices,
        BleResp::ReadData(_) => cmd is ReadCharacteristic,
        BleResp::Written => cmd is WriteCharacteristic,
    }
}

/// The task waits for a command: idle or connected.
pub open spec fn awaits_command(state: LinkState) -> bool {
    state == LinkState::Idle || state == LinkState::Connected
}

/// Law: every command the task takes while waiting for one is answered by
/// exactly one reply of its kind (or an error) before it takes the next.
/// Either the step answers it at once and the task waits again, or it
/// starts a scan or a connection; then every event that can end that work
/// is answered with a reply to the same command, and the task waits again.
pub proof fn lemma_every_command_answered(
    state: LinkState,
    cmd: BleCmd,
    first: BleStep,
    done: BleEvent,
    second: BleStep,
)
    requires
        awaits_command(state),
        step_decides(state, BleEvent::Command(cmd), first),
    ensures
        first.reply matches Some(r) ==> answers(cmd, r) && awaits_command(first.state),
        first.reply is None ==> (cmd is Scan && first.state == LinkState::Scanning) || (
        cmd is Connect && first.state == LinkState::Connecting),
        first.reply is None && event_fits(first.state, done) && step_decides(first.state, done, second)
            ==> (second.reply matches Some(r) && answers(cmd, r)) && awaits_command(second.state),
{
}


// ─── scan result collection ─────────────────────────

/// Ring of the most recently seen device addresses (as `addr_key`s),
/// holding at most `SCAN_CACHE`; the oldest leaves first. A
/// `heapless::Deque<u64, 32>` that Verus does not look into: what it holds
/// is the name `seen_contents`, and the methods below are trusted to act on
/// it as heapless's source does.
#[verifier::external_body]
pub struct SeenCache {
    inner: heapless::Deque<u64, 32>,
}

/// The addresses a cache holds, oldest first.
pub uninterp spec fn seen_contents(cache: SeenCache) -> Seq<u64>;

impl SeenCache {
    /// `heapless::Deque::new`. Trusted: the new cache holds nothing.
    #[verifier::external_body]
    pub(crate) fn new() -> (c: Self)
        ensures
            seen_contents(c) == Seq::<u64>::empty(),
    {
        SeenCache { inner: heapless::Deque::new() }
    }

    /// `heapless::Deque::is_full`. Trusted: true exactly when the cache holds
    /// its capacity of `SCAN_CACHE` addresses.
    #[verifier::external_body]
    pub(crate) fn is_full(&self) -> (r: bool)
        ensures
            r == (seen_contents(*self).len() >= SCAN_CACHE),
    {
        self.inner.is_full()
    }

    /// `heapless::Deque::pop_front`. Trusted: removes and returns the oldest
    /// address; on an empty cache returns `None` and changes nothing.
    #[verifier::external_body]
    pub(crate) fn pop_front(&mut self) -> (r: Option<u64>)
        ensures
            seen_contents(*old(self)).len() == 0 ==> (r is None && seen_contents(*final(self)) == seen_contents(*old(self))),
            seen_contents(*old(self)).len() > 0 ==> (r == Some(seen_contents(*old(self))[0]) && seen_contents(*final(self)) == seen_contents(*old(self)).drop_first()),
    {
        self.inner.pop_front()
    }

    /// `heapless::Deque::push_back`. Trusted: appends the address as the
    /// newest unless the cache is full, in which case it hands the address
    /// back and changes nothing.
    #[verifier::external_body]
    pub(crate) fn push_back(&mut self, key: u64) -> (r: Result<(), u64>)
        ensures
            seen_contents(*old(self)).len() < SCAN_CACHE ==> (r is Ok && seen_contents(*final(self)) == seen_contents(*old(self)).push(key)),
            seen_contents(*old(self)).len() >= SCAN_CACHE ==> (r == Err::<(), u64>(key) && seen_contents(*final(self)) == seen_contents(*old(self))),
    {
        self.inner.push_back(key)
    }

    /// `heapless::Deque::iter`, copied into a vector. Trusted: yields the
    /// addresses the cache holds, oldest first.
    #[verifier::external_body]
    pub(crate) fn items(&self) -> (v: Vec<u64>)
        ensures
            v@ == seen_contents(*self),
    {
        self.inner.iter().copied().collect()
    }
}

/// One advertising report as the controller delivers it: the advertiser's
/// address and its kind, the signal strength and the raw AD payload.
pub struct AdvReport {
    pub addr: [u8; 6],
    pub addr_kind: u8,
    pub rssi: i8,
    pub data: Vec<u8>,
}

/// What `AdStructure::decode` yields for an AD payload, structure by
/// structure: the bytes of each complete local name, `None` for any other
/// structure and for each structure that fails to decode.
pub uninterp spec fn ad_local_names(data: Seq<u8>) -> Seq<Option<Seq<u8>>>;

/// Decodes an AD payload with `trouble_host::advertise::AdStructure::decode`
/// and keeps, for each decoded item, the bytes of a complete local name.
/// Trusted: the result is the name `ad_local_names` of the payload.
#[verifier::external_body]
fn decode_local_names(data: &[u8]) -> (r: Vec<Option<Vec<u8>>>)
    ensures
        r.deep_view() == ad_local_names(data@),
{
    AdStructure::decode(data).map(|ad| match ad {
        Ok(AdStructure::CompleteLocalName(n)) => Some(n.to_vec()),
        Ok(_) => None,
        Err(_) => None,
    }).collect()
}

/// The last complete local name among decoded AD items, if any.
pub open spec fn last_name(items: Seq<Option<Seq<u8>>>) -> Option<Seq<u8>>
    decreases items.len(),
{
    if items.len() == 0 {
        None
    } else {
        match items.last() {
            Some(n) => Some(n),
            None => last_name(items.drop_last()),
        }
    }
}

/// The device name shown for decoded AD items: the last complete local
/// name (lossily decoded as UTF-8), or empty.
pub open spec fn spec_name_of(items: Seq<Option<Seq<u8>>>) -> Seq<char> {
    match last_name(items) {
        Some(n) => utf8_lossy(n),
        None => Seq::empty(),
    }
}

/// Law: the name shown for decoded AD items is the last complete local
/// name among them (lossily decoded): if item `k` is the name `n` and no
/// later item is a name, the name is `n`; with no name at all it is empty.
pub proof fn lemma_last_name_wins(items: Seq<Option<Seq<u8>>>, k: int, n: Seq<u8>)
    ensures
        0 <= k < items.len() && items[k] == Some(n) && (forall|j: int|
            k < j < items.len() ==> #[trigger] items[j] is None) ==> spec_name_of(items) == utf8_lossy(n),
        (forall|j: int| 0 <= j < items.len() ==> #[trigger] items[j] is None) ==> spec_name_of(items)
            == Seq::<char>::empty(),
    decreases items.len(),
{
    if items.len() > 0 {
        let init = items.drop_last();
        lemma_last_name_wins(init, k, n);
        if 0 <= k < items.len() - 1 && items[k] == Some(n) && (forall|j: int|
            k < j < items.len() ==> #[trigger] items[j] is None) {
            assert(items.last() is None);
            assert(init[k] == items[k]);
            assert forall|j: int| k < j < init.len() implies #[trigger] init[j] is None by {
                assert(init[j] == items[j]);
            }
        }
        if forall|j: int| 0 <= j < items.len() ==> #[trigger] items[j] is None {
            assert(items.last() is None);
            assert forall|j: int| 0 <= j < init.len() implies #[trigger] init[j] is None by {
                assert(init[j] == items[j]);
            }
        }
    }
}

/// The device name for the decoded AD items of a report.
pub fn name_from_ad_items(items: &Vec<Option<Vec<u8>>>) -> (name: String)
    ensures
        name@ == spec_name_of(items.deep_view()),
{
    let mut i: usize = items.len();
    assert(items.deep_view().subrange(0, i as int) =~= items.deep_view());
    while i > 0
        invariant
            i <= items@.len(),
            forall|k: int| i <= k < items@.len() ==> items.deep_view()[k] is None,
            last_name(items.deep_view()) == last_name(items.deep_view().subrange(0, i as int)),
        decreases i,
    {
        proof {
            let s = items.deep_view().subrange(0, i as int);
            assert(s.drop_last() == items.deep_view().subrange(0, i - 1));
            assert(s.last() == items.deep_view()[i - 1]);
        }
        match &items[i - 1] {
            Some(n) => {
                assert(n.deep_view() =~= n@);
                assert(items.deep_view()[i - 1] == Some(n.deep_view()));
                return string_from_utf8_lossy(n.as_slice());
            },
            None => {},
        }
        i = i - 1;
    }
    String::new()
}

/// The device name carried by an AD payload.
pub fn local_name(data: &[u8]) -> (name: String)
    ensures
        name@ == spec_name_of(ad_local_names(data@)),
{
    let items = decode_local_names(data);
    name_from_ad_items(&items)
}

/// The key a device address is remembered under (its six bytes, little-endian).
pub open spec fn spec_addr_key(a: [u8; 6]) -> u64 {
    (a[0] + a[1] * 0x100 + a[2] * 0x10000 + a[3] * 0x1000000 + a[4] * 0x100000000 + a[5]
        * 0x10000000000) as u64
}

/// The key a device address is remembered under.
pub fn addr_key(a: &[u8; 6]) -> (k: u64)
    ensures
        k == spec_addr_key(*a),
{
    (a[0] as u64) + (a[1] as u64) * 0x100 + (a[2] as u64) * 0x10000 + (a[3] as u64) * 0x1000000
        + (a[4] as u64) * 0x100000000 + (a[5] as u64) * 0x10000000000
}

/// The result a new report adds.
pub open spec fn spec_result_of(r: AdvReport) -> ScanResultView {
    ScanResultView {
        addr: r.addr,
        addr_type: r.addr_kind,
        name: spec_name_of(ad_local_names(r.data@)),
        rssi: r.rssi,
    }
}

/// The seen cache after remembering `key`: the oldest entry leaves first
/// when the cache is full.
pub open spec fn remember(seen: Seq<u64>, key: u64) -> Seq<u64> {
    if seen.len() >= SCAN_CACHE {
        seen.drop_first().push(key)
    } else {
        seen.push(key)
    }
}

/// Collects a run of reports into (seen cache, results). A report whose
/// address is in the cache is skipped; collection stops at the first report
/// that failed to parse, and right after a result brings the count to
/// `MAX_RESULTS` or more.
pub open spec fn spec_collect(
    seen: Seq<u64>,
    results: Seq<ScanResultView>,
    reports: Seq<Option<AdvReport>>,
) -> (Seq<u64>, Seq<ScanResultView>)
    decreases reports.len(),
{
    if reports.len() == 0 {
        (seen, results)
    } else {
        match reports[0] {
            None => (seen, results),
            Some(r) => {
                let key = spec_addr_key(r.addr);
                if seen.contains(key) {
                    spec_collect(seen, results, reports.drop_first())
                } else {
                    let results2 = results.push(spec_result_of(r));
                    let seen2 = remember(seen, key);
                    if results2.len() >= MAX_RESULTS {
                        (seen2, results2)
                    } else {
                        spec_collect(seen2, results2, reports.drop_first())
                    }
                }
            },
        }
    }
}

/// The address keys of a run of results.
pub open spec fn result_keys(results: Seq<ScanResultView>) -> Seq<u64> {
    results.map_values(|r: ScanResultView| spec_addr_key(r.addr))
}

/// Since the last drain, the cache holds exactly the keys of the results,
/// no key twice, and there are at most `MAX_RESULTS` results.
pub open spec fn collection_consistent(seen: Seq<u64>, results: Seq<ScanResultView>) -> bool {
    &&& seen == result_keys(results)
    &&& seen.no_duplicates()
    &&& results.len() <= MAX_RESULTS
}

/// Recording a report from an address not yet in a consistent collection
/// that has room keeps it consistent: the key joins the cache as the
/// newest, and the result joins the results.
proof fn lemma_record_new(seen: Seq<u64>, results: Seq<ScanResultView>, r: AdvReport)
    requires
        collection_consistent(seen, results),
        !seen.contains(spec_addr_key(r.addr)),
        results.len() < MAX_RESULTS,
    ensures
        remember(seen, spec_addr_key(r.addr)) == seen.push(spec_addr_key(r.addr)),
        collection_consistent(seen.push(spec_addr_key(r.addr)), results.push(spec_result_of(r))),
{
    let key = spec_addr_key(r.addr);
    let seen2 = seen.push(key);
    assert(result_keys(results.push(spec_result_of(r))) =~= seen2);
    assert forall|a: int, b: int| 0 <= a < b < seen2.len() implies seen2[a] != seen2[b] by {
        if b == seen.len() {
            assert(seen.contains(seen[a]));
        }
    }
}

/// Law: a scan that starts with fewer than `MAX_RESULTS` results (as after
/// a drain) never records the same device twice and stops at
/// `MAX_RESULTS` results; the cache keeps exactly the recorded addresses.
pub proof fn lemma_collect_unique(
    seen: Seq<u64>,
    results: Seq<ScanResultView>,
    reports: Seq<Option<AdvReport>>,
)
    requires
        collection_consistent(seen, results),
        results.len() < MAX_RESULTS,
    ensures
        collection_consistent(spec_collect(seen, results, reports).0, spec_collect(seen, results, reports).1),
    decreases reports.len(),
{
    if reports.len() > 0 {
        if let Some(r) = reports[0] {
            let key = spec_addr_key(r.addr);
            if seen.contains(key) {
                lemma_collect_unique(seen, results, reports.drop_first());
            } else {
                let results2 = results.push(spec_result_of(r));
                let seen2 = remember(seen, key);
                lemma_record_new(seen, results, r);
                if results2.len() < MAX_RESULTS {
                    lemma_collect_unique(seen2, results2, reports.drop_first());
                }
            }
        }
    }
}

/// Every report of the batch that parsed comes from an address whose key
/// is in `keys`.
pub open spec fn reports_within(reports: Seq<Option<AdvReport>>, keys: Set<u64>) -> bool {
    forall|i: int|
        0 <= i < reports.len() ==> (#[trigger] reports[i] matches Some(r) ==> keys.contains(
            spec_addr_key(r.addr),
        ))
}

/// Every key the cache holds is in `keys`.
pub open spec fn seen_within(seen: Seq<u64>, keys: Set<u64>) -> bool {
    forall|i: int| 0 <= i < seen.len() ==> keys.contains(#[trigger] seen[i])
}

/// `results` extends `earlier`: what was collected stays, in its order.
pub open spec fn extends(results: Seq<ScanResultView>, earlier: Seq<ScanResultView>) -> bool {
    earlier.len() <= results.len() && results.subrange(0, earlier.len() as int) == earlier
}

/// A cache of `MAX_RESULTS` distinct keys, all in a set of at most that
/// many keys, holds every key of the set.
proof fn lemma_full_cache_covers(seen: Seq<u64>, keys: Set<u64>, key: u64)
    requires
        seen.no_duplicates(),
        seen.len() >= MAX_RESULTS,
        seen_within(seen, keys),
        keys.finite(),
        keys.len() <= MAX_RESULTS,
        keys.contains(key),
    ensures
        seen.contains(key),
{
    if !seen.contains(key) {
        seen.unique_seq_to_set();
        let with_key = seen.to_set().insert(key);
        assert(with_key.subset_of(keys)) by {
            assert forall|x: u64| with_key.contains(x) implies keys.contains(x) by {
                if x != key {
                    let j = choose|j: int| 0 <= j < seen.len() && seen[j] == x;
                    assert(keys.contains(seen[j]));
                }
            }
        }
        vstd::set_lib::lemma_len_subset(with_key, keys);
        assert(!seen.to_set().contains(key));
    }
}

/// Law: as long as all the devices heard since the last drain number at
/// most `MAX_RESULTS` (their keys form `keys`), a batch of reports keeps
/// the collection consistent: no device is recorded twice, there are at
/// most `MAX_RESULTS` results, earlier results stay in place, and the cache
/// holds only keys of `keys`. This holds from any consistent state, a full
/// one included.
pub proof fn lemma_collect_within_keys(
    seen: Seq<u64>,
    results: Seq<ScanResultView>,
    reports: Seq<Option<AdvReport>>,
    keys: Set<u64>,
)
    requires
        collection_consistent(seen, results),
        seen_within(seen, keys),
        keys.finite(),
        keys.len() <= MAX_RESULTS,
        reports_within(reports, keys),
    ensures
        collection_consistent(spec_collect(seen, results, reports).0, spec_collect(seen, results, reports).1),
        seen_within(spec_collect(seen, results, reports).0, keys),
        extends(spec_collect(seen, results, reports).1, results),
    decreases reports.len(),
{
    let rest = reports.drop_first();
    if reports.len() > 0 {
        assert forall|i: int| 0 <= i < rest.len() implies (#[trigger] rest[i] matches Some(r)
            ==> keys.contains(spec_addr_key(r.addr))) by {
            assert(rest[i] == reports[i + 1]);
        }
        if let Some(r) = reports[0] {
            let key = spec_addr_key(r.addr);
            assert(reports[0] matches Some(r) ==> keys.contains(spec_addr_key(r.addr)));
            if seen.contains(key) {
                lemma_collect_within_keys(seen, results, rest, keys);
            } else {
                assert(seen.len() == results.len());
                if seen.len() >= MAX_RESULTS {
                    lemma_full_cache_covers(seen, keys, key);
                }
                let results2 = results.push(spec_result_of(r));
                let seen2 = remember(seen, key);
                lemma_record_new(seen, results, r);
                assert forall|i: int| 0 <= i < seen2.len() implies keys.contains(#[trigger] seen2[i]) by {
                    if i < seen.len() {
                        assert(seen2[i] == seen[i]);
                    }
                }
                assert(results2.subrange(0, results.len() as int) =~= results);
                if results2.len() < MAX_RESULTS {
                    lemma_collect_within_keys(seen2, results2, rest, keys);
                    let out = spec_collect(seen2, results2, rest).1;
                    assert(out.subrange(0, results.len() as int) =~= out.subrange(
                        0,
                        results2.len() as int,
                    ).subrange(0, results.len() as int));
                }
            }
        } else {
            assert(results.subrange(0, results.len() as int) =~= results);
        }
    } else {
        assert(results.subrange(0, results.len() as int) =~= results);
    }
}

/// The (cache, results) after the batches `batches`, in order.
pub open spec fn collect_batches(
    seen: Seq<u64>,
    results: Seq<ScanResultView>,
    batches: Seq<Seq<Option<AdvReport>>>,
) -> (Seq<u64>, Seq<ScanResultView>)
    decreases batches.len(),
{
    if batches.len() == 0 {
        (seen, results)
    } else {
        let next = spec_collect(seen, results, batches[0]);
        collect_batches(next.0, next.1, batches.drop_first())
    }
}

/// Law: over any number of batches whose devices number at most
/// `MAX_RESULTS` in all, a collection that starts empty (new or just
/// drained) never records a device twice, never holds more than
/// `MAX_RESULTS` results, and only ever adds results after the earlier
/// ones.
pub proof fn lemma_batches_unique(
    seen: Seq<u64>,
    results: Seq<ScanResultView>,
    batches: Seq<Seq<Option<AdvReport>>>,
    keys: Set<u64>,
)
    requires
        collection_consistent(seen, results),
        seen_within(seen, keys),
        keys.finite(),
        keys.len() <= MAX_RESULTS,
        forall|b: int| 0 <= b < batches.len() ==> reports_within(#[trigger] batches[b], keys),
    ensures
        collection_consistent(collect_batches(seen, results, batches).0, collect_batches(seen, results, batches).1),
        result_keys(collect_batches(seen, results, batches).1).no_duplicates(),
        collect_batches(seen, results, batches).1.len() <= MAX_RESULTS,
        extends(collect_batches(seen, results, batches).1, results),
    decreases batches.len(),
{
    if batches.len() > 0 {
        lemma_collect_within_keys(seen, results, batches[0], keys);
        let next = spec_collect(seen, results, batches[0]);
        let rest = batches.drop_first();
        assert forall|b: int| 0 <= b < rest.len() implies reports_within(#[trigger] rest[b], keys) by {
            assert(rest[b] == batches[b + 1]);
        }
        lemma_batches_unique(next.0, next.1, rest, keys);
        let out = collect_batches(next.0, next.1, rest).1;
        assert(out.subrange(0, results.len() as int) =~= out.subrange(0, next.1.len() as int).subrange(
            0,
            results.len() as int,
        ));
    } else {
        assert(results.subrange(0, results.len() as int) =~= results);
    }
}

/// The results a run of reports brings when each device counts once: the
/// first report of each address not in `known` gives its result, in the
/// order the addresses were first heard; the run ends at the first report
/// that failed to parse.
pub open spec fn first_reports(known: Seq<u64>, reports: Seq<Option<AdvReport>>) -> Seq<ScanResultView>
    decreases reports.len(),
{
    if reports.len() == 0 {
        Seq::empty()
    } else {
        match reports[0] {
            None => Seq::empty(),
            Some(r) => if known.contains(spec_addr_key(r.addr)) {
                first_reports(known, reports.drop_first())
            } else {
                seq![spec_result_of(r)] + first_reports(
                    known.push(spec_addr_key(r.addr)),
                    reports.drop_first(),
                )
            },
        }
    }
}

/// `first_reports` over a run of batches, the addresses heard in earlier
/// batches counting as known in later ones.
pub open spec fn first_reports_batches(
    known: Seq<u64>,
    batches: Seq<Seq<Option<AdvReport>>>,
) -> Seq<ScanResultView>
    decreases batches.len(),
{
    if batches.len() == 0 {
        Seq::empty()
    } else {
        let found = first_reports(known, batches[0]);
        found + first_reports_batches(known + result_keys(found), batches.drop_first())
    }
}

/// Once every key of `keys` is known, reports from those keys bring nothing.
proof fn lemma_first_reports_all_known(known: Seq<u64>, reports: Seq<Option<AdvReport>>, keys: Set<u64>)
    requires
        forall|k: u64| keys.contains(k) ==> known.contains(k),
        reports_within(reports, keys),
    ensures
        first_reports(known, reports) == Seq::<ScanResultView>::empty(),
    decreases reports.len(),
{
    if reports.len() > 0 {
        let rest = reports.drop_first();
        assert forall|i: int| 0 <= i < rest.len() implies (#[trigger] rest[i] matches Some(r)
            ==> keys.contains(spec_addr_key(r.addr))) by {
            assert(rest[i] == reports[i + 1]);
        }
        assert(reports[0] matches Some(r) ==> keys.contains(spec_addr_key(r.addr)));
        lemma_first_reports_all_known(known, rest, keys);
    }
}

/// Law: as long as all the devices heard since the last drain number at
/// most `MAX_RESULTS` (their keys form `keys`), a batch adds to the results
/// exactly `first_reports` of it: one result per newly heard address, built
/// from the first report of that address, in the order first heard.
pub proof fn lemma_collect_first_reports(
    seen: Seq<u64>,
    results: Seq<ScanResultView>,
    reports: Seq<Option<AdvReport>>,
    keys: Set<u64>,
)
    requires
        collection_consistent(seen, results),
        seen_within(seen, keys),
        keys.finite(),
        keys.len() <= MAX_RESULTS,
        reports_within(reports, keys),
    ensures
        spec_collect(seen, results, reports).1 == results + first_reports(seen, reports),
    decreases reports.len(),
{
    let rest = reports.drop_first();
    if reports.len() > 0 {
        assert forall|i: int| 0 <= i < rest.len() implies (#[trigger] rest[i] matches Some(r)
            ==> keys.contains(spec_addr_key(r.addr))) by {
            assert(rest[i] == reports[i + 1]);
        }
        if let Some(r) = reports[0] {
            let key = spec_addr_key(r.addr);
            assert(reports[0] matches Some(r) ==> keys.contains(spec_addr_key(r.addr)));
            if seen.contains(key) {
                lemma_collect_first_reports(seen, results, rest, keys);
            } else {
                assert(seen.len() == results.len());
                if seen.len() >= MAX_RESULTS {
                    lemma_full_cache_covers(seen, keys, key);
                }
                let res = spec_result_of(r);
                let results2 = results.push(res);
                let seen2 = remember(seen, key);
                lemma_record_new(seen, results, r);
                assert forall|i: int| 0 <= i < seen2.len() implies keys.contains(#[trigger] seen2[i]) by {
                    if i < seen.len() {
                        assert(seen2[i] == seen[i]);
                    }
                }
                let later = first_reports(seen2, rest);
                assert(first_reports(seen, reports) == seq![res] + later);
                if results2.len() >= MAX_RESULTS {
                    assert forall|k: u64| keys.contains(k) implies seen2.contains(k) by {
                        lemma_full_cache_covers(seen2, keys, k);
                    }
                    lemma_first_reports_all_known(seen2, rest, keys);
                    assert(results2 =~= results + (seq![res] + later));
                } else {
                    lemma_collect_first_reports(seen2, results2, rest, keys);
                    assert(results2 + later =~= results + (seq![res] + later));
                }
            }
        } else {
            assert(results + Seq::<ScanResultView>::empty() =~= results);
        }
    } else {
        assert(results + Seq::<ScanResultView>::empty() =~= results);
    }
}

/// `v` is the scan result of report `r`: its address, the report's address
/// kind as the address type, its signal strength, and the device name its
/// AD payload carries.
pub open spec fn built_from(v: ScanResultView, r: AdvReport) -> bool {
    &&& v.addr == r.addr
    &&& v.addr_type == r.addr_kind
    &&& v.rssi == r.rssi
    &&& v.name == spec_name_of(ad_local_names(r.data@))
}

/// Report `j` of a run is where result `v` comes from: `v` is built from
/// it, its address is not among `known`, every report before it parsed,
/// and none of those came from the same address.
pub open spec fn first_source(v: ScanResultView, reports: Seq<Option<AdvReport>>, j: int, known: Seq<u64>) -> bool {
    &&& 0 <= j < reports.len()
    &&& reports[j] matches Some(r) && built_from(v, r) && !known.contains(spec_addr_key(r.addr))
    &&& forall|j2: int|
        0 <= j2 < j ==> (#[trigger] reports[j2] matches Some(r2) && spec_addr_key(r2.addr)
            != spec_addr_key(reports[j]->Some_0.addr))
}

/// Some report of the run is where `v` comes from (`first_source`).
pub open spec fn has_first_source(v: ScanResultView, reports: Seq<Option<AdvReport>>, known: Seq<u64>) -> bool {
    exists|j: int| first_source(v, reports, j, known)
}

/// Law: every result that a run of reports brings is built from the first
/// report of its address in the run: same address, address type taken from
/// the report's address kind, same signal strength, and the name that
/// report's payload carries.
pub proof fn lemma_first_reports_sources(known: Seq<u64>, reports: Seq<Option<AdvReport>>)
    ensures
        forall|i: int|
            0 <= i < first_reports(known, reports).len() ==> has_first_source(
                #[trigger] first_reports(known, reports)[i],
                reports,
                known,
            ),
    decreases reports.len(),
{
    let out = first_reports(known, reports);
    if reports.len() > 0 {
        if let Some(r0) = reports[0] {
            let k0 = spec_addr_key(r0.addr);
            let rest = reports.drop_first();
            let known2 = if known.contains(k0) { known } else { known.push(k0) };
            lemma_first_reports_sources(known2, rest);
            let later = first_reports(known2, rest);
            assert forall|i: int| 0 <= i < out.len() implies has_first_source(#[trigger] out[i], reports, known) by {
                let off: int = if known.contains(k0) { 0 } else { 1 };
                if off == 1 && i == 0 {
                    assert(out[0] == spec_result_of(r0));
                    assert(first_source(out[0], reports, 0, known));
                    assert(has_first_source(out[0], reports, known));
                } else {
                    let x = later[i - off];
                    assert(out[i] == x);
                    assert(has_first_source(x, rest, known2));
                    let j = choose|j: int| #[trigger] first_source(x, rest, j, known2);
                    let rj = rest[j]->Some_0;
                    assert(rest[j] == reports[j + 1]);
                    assert(!known.contains(spec_addr_key(rj.addr))) by {
                        if known.contains(spec_addr_key(rj.addr)) {
                            let m = choose|m: int| 0 <= m < known.len() && known[m] == spec_addr_key(rj.addr);
                            if off == 1 {
                                assert(known2[m] == known[m]);
                            }
                        }
                    }
                    assert(k0 != spec_addr_key(rj.addr)) by {
                        if off == 0 {
                        } else {
                            assert(known2[known.len() as int] == k0);
                        }
                    }
                    assert forall|j2: int| 0 <= j2 < j + 1 implies (#[trigger] reports[j2] matches Some(r2)
                        && spec_addr_key(r2.addr) != spec_addr_key(reports[j + 1]->Some_0.addr)) by {
                        if j2 > 0 {
                            assert(reports[j2] == rest[j2 - 1]);
                        }
                    }
                    assert(first_source(out[i], reports, j + 1, known));
                    assert(has_first_source(out[i], reports, known));
                }
            }
        } else {
            assert(out.len() == 0);
        }
    } else {
        assert(out.len() == 0);
    }
}

/// Law: as long as all the devices heard since the last drain number at
/// most `MAX_RESULTS` (their keys form `keys`), every result a batch adds
/// is built from the first report of its address in the batch, an address
/// not recorded before: its address, its address type (the report's
/// address kind), its signal strength and its name all come from that
/// report.
pub proof fn lemma_collected_results_sources(
    seen: Seq<u64>,
    results: Seq<ScanResultView>,
    reports: Seq<Option<AdvReport>>,
    keys: Set<u64>,
)
    requires
        collection_consistent(seen, results),
        seen_within(seen, keys),
        keys.finite(),
        keys.len() <= MAX_RESULTS,
        reports_within(reports, keys),
    ensures
        forall|i: int|
            results.len() <= i < spec_collect(seen, results, reports).1.len() ==> has_first_source(
                #[trigger] spec_collect(seen, results, reports).1[i],
                reports,
                seen,
            ),
{
    lemma_collect_first_reports(seen, results, reports, keys);
    lemma_first_reports_sources(seen, reports);
    let out = spec_collect(seen, results, reports).1;
    let found = first_reports(seen, reports);
    assert forall|i: int| results.len() <= i < out.len() implies has_first_source(#[trigger] out[i], reports, seen) by {
        let x = found[i - results.len()];
        assert(out[i] == x);
    }
}

/// Law: over any number of batches whose devices number at most
/// `MAX_RESULTS` in all, the results gathered since the last drain are
/// exactly `first_reports_batches` of the batches: one per address, built
/// from the first report of that address, in the order first heard.
pub proof fn lemma_batches_first_reports(
    seen: Seq<u64>,
    results: Seq<ScanResultView>,
    batches: Seq<Seq<Option<AdvReport>>>,
    keys: Set<u64>,
)
    requires
        collection_consistent(seen, results),
        seen_within(seen, keys),
        keys.finite(),
        keys.len() <= MAX_RESULTS,
        forall|b: int| 0 <= b < batches.len() ==> reports_within(#[trigger] batches[b], keys),
    ensures
        collect_batches(seen, results, batches).1 == results + first_reports_batches(seen, batches),
    decreases batches.len(),
{
    if batches.len() > 0 {
        lemma_collect_within_keys(seen, results, batches[0], keys);
        lemma_collect_first_reports(seen, results, batches[0], keys);
        let next = spec_collect(seen, results, batches[0]);
        let found = first_reports(seen, batches[0]);
        let rest = batches.drop_first();
        assert forall|b: int| 0 <= b < rest.len() implies reports_within(#[trigger] rest[b], keys) by {
            assert(rest[b] == batches[b + 1]);
        }
        assert(result_keys(results + found) =~= result_keys(results) + result_keys(found));
        assert(next.0 == seen + result_keys(found));
        lemma_batches_first_reports(next.0, next.1, rest, keys);
        let later = first_reports_batches(next.0, rest);
        assert((results + found) + later =~= results + (found + later));
    } else {
        assert(results + Seq::<ScanResultView>::empty() =~= results);
    }
}

/// Law: a collector that takes in the batches `batches` one after another
/// (`states[i + 1]` being the collector after `batches[i]`, as
/// `on_adv_reports` states it) ends with `collect_batches` of the batches.
pub proof fn lemma_collector_follows_batches(
    states: Seq<ScanCollector>,
    batches: Seq<Seq<Option<AdvReport>>>,
)
    requires
        states.len() == batches.len() + 1,
        forall|i: int|
            0 <= i < batches.len() ==> (#[trigger] states[i + 1].seen(), states[i + 1].results())
                == spec_collect(states[i].seen(), states[i].results(), batches[i]),
    ensures
        (states.last().seen(), states.last().results()) == collect_batches(
            states[0].seen(),
            states[0].results(),
            batches,
        ),
    decreases batches.len(),
{
    if batches.len() > 0 {
        let later = states.drop_first();
        let rest = batches.drop_first();
        assert forall|i: int| 0 <= i < rest.len() implies (#[trigger] later[i + 1].seen(), later[i
            + 1].results()) == spec_collect(later[i].seen(), later[i].results(), rest[i]) by {
            assert(later[i + 1] == states[i + 2]);
            assert(later[i] == states[i + 1]);
            assert(rest[i] == batches[i + 1]);
        }
        lemma_collector_follows_batches(later, rest);
        assert((states[1].seen(), states[1].results()) == spec_collect(
            states[0].seen(),
            states[0].results(),
            batches[0],
        ));
    }
}

/// Whether the cache holds `key`.
fn cache_has(cache: &SeenCache, key: u64) -> (r: bool)
    ensures
        r == seen_contents(*cache).contains(key),
{
    let items = cache.items();
    let mut i: usize = 0;
    while i < items.len()
        invariant
            items@ == seen_contents(*cache),
            i <= items@.len(),
            forall|k: int| 0 <= k < i ==> items@[k] != key,
        decreases items@.len() - i,
    {
        if items[i] == key {
            assert(items@[i as int] == key);
            return true;
        }
        i = i + 1;
    }
    false
}

/// The views of a run of results.
pub open spec fn result_views(v: Seq<ScanResult>) -> Seq<ScanResultView> {
    v.map_values(|r: ScanResult| r@)
}

/// Collects scan results from advertising reports.
pub struct ScanCollector {
    seen: SeenCache,
    results: Vec<ScanResult>,
}

impl ScanCollector {
    /// The addresses seen since the last drain (at most the newest 32).
    pub closed spec fn seen(&self) -> Seq<u64> {
        seen_contents(self.seen)
    }

    /// The results collected since the last drain.
    pub closed spec fn results(&self) -> Seq<ScanResultView> {
        result_views(self.results@)
    }

    /// The cache never holds more than `SCAN_CACHE` addresses.
    #[verifier::type_invariant]
    spec fn wf(&self) -> bool {
        seen_contents(self.seen).len() <= SCAN_CACHE
    }

    /// An empty collector.
    pub fn new() -> (c: Self)
        ensures
            c.seen() == Seq::<u64>::empty(),
            c.results() == Seq::<ScanResultView>::empty(),
    {
        let c = ScanCollector { seen: SeenCache::new(), results: Vec::new() };
        assert(c.results() =~= Seq::<ScanResultView>::empty());
        c
    }

    /// Hands out the results collected so far and forgets them, together
    /// with the seen addresses.
    pub fn drain(&mut self) -> (out: Vec<ScanResult>)
        ensures
            out@.map_values(|r: ScanResult| r@) == old(self).results(),
            final(self).seen() == Seq::<u64>::empty(),
            final(self).results() == Seq::<ScanResultView>::empty(),
    {
        proof {
            use_type_invariant(&*self);
        }
        let mut out: Vec<ScanResult> = Vec::new();
        std::mem::swap(&mut out, &mut self.results);
        self.seen = SeenCache::new();
        assert(self.results() =~= Seq::<ScanResultView>::empty());
        out
    }

    /// Takes in a batch of advertising reports (`None` marks a report that
    /// failed to parse), in the order the controller delivered them.
    pub fn on_adv_reports(&mut self, reports: &Vec<Option<AdvReport>>)
        ensures
            (final(self).seen(), final(self).results()) == spec_collect(
                old(self).seen(),
                old(self).results(),
                reports@,
            ),
    {
        proof {
            use_type_invariant(&*self);
        }
        let mut seen = SeenCache::new();
        std::mem::swap(&mut seen, &mut self.seen);
        let mut results: Vec<ScanResult> = Vec::new();
        std::mem::swap(&mut results, &mut self.results);
        let ghost goal = spec_collect(seen_contents(seen), result_views(results@), reports@);
        let mut i: usize = 0;
        assert(reports@.skip(0) =~= reports@);
        while i < reports.len()
            invariant_except_break
                seen_contents(seen).len() <= SCAN_CACHE,
                i <= reports@.len(),
                goal == spec_collect(seen_contents(seen), result_views(results@), reports@.skip(i as int)),
            ensures
                seen_contents(seen).len() <= SCAN_CACHE,
                goal == (seen_contents(seen), result_views(results@)),
            decreases reports@.len() - i,
        {
            proof {
                assert(reports@.skip(i as int)[0] == reports@[i as int]);
                assert(reports@.skip(i as int).drop_first() == reports@.skip(i + 1));
            }
            match &reports[i] {
                None => {
                    break;
                },
                Some(rep) => {
                    let key = addr_key(&rep.addr);
                    if !cache_has(&seen, key) {
                        let name = local_name(rep.data.as_slice());
                        let result = ScanResult {
                            addr: rep.addr,
                            addr_type: rep.addr_kind,
                            name,
                            rssi: rep.rssi,
                        };
                        let ghost before = result_views(results@);
                        results.push(result);
                        assert(result_views(results@) =~= before.push(spec_result_of(*rep)));
                        if seen.is_full() {
                            let _ = seen.pop_front();
                        }
                        let _ = seen.push_back(key);
                        if results.len() >= MAX_RESULTS {
                            break;
                        }
                    }
                },
            }
            i = i + 1;
        }
        self.seen = seen;
        self.results = results;
    }
}

} // verus!
