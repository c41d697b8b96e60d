//! Prometheus exposition for `razerd`.
//!
//! Device presence, device number and kernel driver are read from the host on
//! every scrape; firmware, mode, polling rate and brightness are polled and
//! cached here. The device serial is not exported unless the registry was made
//! to expose it.
//!
//! | Signal | Metric |
//! |---|---|
//! | Latency | `razer_transaction_duration_seconds` |
//! | Traffic | `razer_transactions_total` |
//! | Errors | `razer_transaction_errors_total` |
//! | Saturation | `razer_transaction_attempts_total` vs `razer_transactions_total` |
//!
//! Seconds with a fraction reach the registry as text, formatted by the caller.
pub mod exposition;
pub mod lines;

use vstd::prelude::*;
use vstd::string::StringExecFns;

use crate::daemon::table::{
    is_set, law_setting_changes_one_series, lookup, sorted, DeviceLabels, KeyText, SeriesKey, Table,
};
use crate::text::chars_of;
use crate::time::Duration;

verus! {

// ---------------------------------------------------------------------------
// Label values
// ---------------------------------------------------------------------------

/// One character of a label value, escaped.
pub open spec fn escaped_char(c: char) -> Seq<char> {
    if c == '\\' {
        seq!['\\', '\\']
    } else if c == '"' {
        seq!['\\', '"']
    } else if c == '\n' {
        seq!['\\', 'n']
    } else if c == '\r' {
        seq!['\\', 'r']
    } else {
        seq![c]
    }
}

/// A label value, escaped character by character.
pub open spec fn escaped(s: Seq<char>) -> Seq<char>
    decreases s.len(),
{
    if s.len() == 0 {
        Seq::empty()
    } else {
        escaped(s.drop_last()) + escaped_char(s.last())
    }
}

/// Escape a label value.
///
/// The exposition format requires `\`, `"` and newline to be escaped. A bare
/// carriage return is not required to be, but gets the same treatment rather
/// than landing raw in the output.
pub fn escape(s: &str) -> (text: String)
    ensures
        text@ == escaped(s@),
{
    let v = chars_of(s);
    let mut out = String::new();
    let mut i: usize = 0;
    assert(v@.take(0) =~= Seq::empty());
    while i < v.len()
        invariant
            0 <= i <= v@.len(),
            out@ == escaped(v@.take(i as int)),
        decreases v@.len() - i,
    {
        let c: char = v[i];
        assert(v@.take(i + 1).drop_last() =~= v@.take(i as int));
        assert(v@.take(i + 1).last() == c);
        let ghost before = out@;
        if c == '\\' {
            out.push('\\');
            out.push('\\');
        } else if c == '"' {
            out.push('\\');
            out.push('"');
        } else if c == '\n' {
            out.push('\\');
            out.push('n');
        } else if c == '\r' {
            out.push('\\');
            out.push('r');
        } else {
            out.push(c);
        }
        assert(out@ =~= before + escaped_char(c));
        i = i + 1;
    }
    assert(v@.take(i as int) =~= v@);
    out
}

/// Escaping loses nothing: two values that escape to the same text are the
/// same.
pub proof fn law_escape_is_reversible(a: Seq<char>, b: Seq<char>)
    requires
        escaped(a) == escaped(b),
    ensures
        a == b,
    decreases a.len() + b.len(),
{
    lemma_escape_first(a);
    lemma_escape_first(b);
    if a.len() == 0 {
        assert(a =~= b);
    } else if b.len() == 0 {
    } else {
        let x = escaped_char(a[0]);
        let y = escaped_char(b[0]);
        let whole = escaped(a);
        assert(whole[0] == x[0]);
        assert(whole[0] == y[0]);
        if x.len() == 2 && y.len() == 2 {
            assert(whole[1] == x[1]);
            assert(whole[1] == y[1]);
        }
        assert(a[0] == b[0]);
        assert(escaped(a.skip(1)) =~= whole.skip(x.len() as int));
        assert(escaped(b.skip(1)) =~= whole.skip(y.len() as int));
        law_escape_is_reversible(a.skip(1), b.skip(1));
        assert(a =~= seq![a[0]] + a.skip(1));
        assert(b =~= seq![b[0]] + b.skip(1));
    }
}

/// Escaping works from the front as well as from the back.
proof fn lemma_escape_first(s: Seq<char>)
    ensures
        s.len() == 0 ==> escaped(s).len() == 0,
        s.len() > 0 ==> escaped(s) == escaped_char(s[0]) + escaped(s.skip(1)),
        s.len() > 0 ==> escaped(s).len() > 0,
    decreases s.len(),
{
    if s.len() == 1 {
        assert(s.drop_last() =~= Seq::empty());
        assert(s.skip(1) =~= Seq::empty());
        assert(escaped(s) =~= escaped_char(s[0]) + escaped(s.skip(1)));
    } else if s.len() > 1 {
        lemma_escape_first(s.drop_last());
        assert(s.drop_last().skip(1) =~= s.skip(1).drop_last());
        assert(escaped(s) =~= escaped_char(s[0]) + escaped(s.skip(1)));
    }
}

/// An escaped value never holds a line break or a carriage return, so it cannot
/// end the line it stands in.
pub proof fn law_escaped_values_stay_on_their_line(s: Seq<char>, i: int)
    requires
        0 <= i < escaped(s).len(),
    ensures
        escaped(s)[i] != '\n',
        escaped(s)[i] != '\r',
    decreases s.len(),
{
    if s.len() > 0 {
        let front = escaped(s.drop_last());
        if i < front.len() {
            law_escaped_values_stay_on_their_line(s.drop_last(), i);
        } else {
            assert(escaped(s)[i] == escaped_char(s.last())[i - front.len()]);
        }
    }
}

/// The labels of a device.
pub open spec fn labels_text(device: Seq<char>, pid: Seq<char>) -> Seq<char> {
    "device=\""@ + escaped(device) + "\",pid=\""@ + escaped(pid) + "\""@
}

impl DeviceLabels {
    /// The labels as they stand between the braces of a series.
    pub fn render(&self) -> (text: String)
        ensures
            text@ == labels_text(self.device@, self.pid@),
    {
        let mut out = "device=\"".to_owned();
        let device = escape(self.device.as_str());
        out.append(device.as_str());
        out.append("\",pid=\"");
        let pid = escape(self.pid.as_str());
        out.append(pid.as_str());
        out.append("\"");
        out
    }
}

// ---------------------------------------------------------------------------
// Histogram
// ---------------------------------------------------------------------------

/// How many latency buckets there are, besides the last that holds everything.
pub const BUCKETS: usize = 11;

/// The upper bound of latency bucket `i`, in nanoseconds.
///
/// A feature-report round trip is sub-millisecond to a few milliseconds; the
/// tail matters because the retry path adds 10 ms per attempt.
pub open spec fn bucket_nanos(i: int) -> u64 {
    seq![
        500_000u64,
        1_000_000u64,
        2_000_000u64,
        5_000_000u64,
        10_000_000u64,
        25_000_000u64,
        50_000_000u64,
        100_000_000u64,
        250_000_000u64,
        500_000_000u64,
        1_000_000_000u64,
    ][i]
}

/// The upper bound of latency bucket `i` in seconds, as it is printed.
pub open spec fn bucket_text(i: int) -> Seq<char> {
    seq![
        "0.0005"@,
        "0.001"@,
        "0.002"@,
        "0.005"@,
        "0.01"@,
        "0.025"@,
        "0.05"@,
        "0.1"@,
        "0.25"@,
        "0.5"@,
        "1"@,
    ][i]
}

/// The upper bound of latency bucket `i`.
fn bucket_bound(i: usize) -> (nanos: u64)
    requires
        i < BUCKETS,
    ensures
        nanos == bucket_nanos(i as int),
{
    let bounds: [u64; 11] = [
        500_000,
        1_000_000,
        2_000_000,
        5_000_000,
        10_000_000,
        25_000_000,
        50_000_000,
        100_000_000,
        250_000_000,
        500_000_000,
        1_000_000_000,
    ];
    bounds[i]
}

/// The upper bound of latency bucket `i`, as it is printed.
fn bucket_label(i: usize) -> (text: &'static str)
    requires
        i < BUCKETS,
    ensures
        text@ == bucket_text(i as int),
{
    let labels: [&'static str; 11] = [
        "0.0005",
        "0.001",
        "0.002",
        "0.005",
        "0.01",
        "0.025",
        "0.05",
        "0.1",
        "0.25",
        "0.5",
        "1",
    ];
    labels[i]
}

/// Latencies of one series, counted by bucket. Each bucket counts everything up
/// to its bound.
#[derive(Debug, Clone, Copy)]
pub struct Histogram {
    /// How many latencies were at most the bound of each bucket.
    pub counts: [u64; BUCKETS],
    /// How many latencies there were.
    pub total: u64,
}

impl Histogram {
    /// Buckets are cumulative: none counts more than the next, and none more
    /// than the total.
    pub open spec fn cumulative(&self) -> bool {
        &&& forall|i: int, j: int| 0 <= i <= j < BUCKETS ==> self.counts@[i] <= self.counts@[j]
        &&& forall|i: int| 0 <= i < BUCKETS ==> self.counts@[i] <= self.total
    }

    /// Nothing counted yet.
    pub fn new() -> (histogram: Self)
        ensures
            histogram.cumulative(),
            histogram.total == 0,
            forall|i: int| 0 <= i < BUCKETS ==> histogram.counts@[i] == 0,
    {
        Histogram { counts: [0u64; BUCKETS], total: 0 }
    }

    /// Count one latency, in every bucket whose bound it does not exceed.
    pub fn observe(&mut self, latency: Duration)
        requires
            old(self).cumulative(),
            old(self).total < u64::MAX,
        ensures
            final(self).cumulative(),
            final(self).total == old(self).total + 1,
            forall|i: int|
                0 <= i < BUCKETS ==> final(self).counts@[i] == old(self).counts@[i] + hit(
                    latency,
                    i,
                ),
    {
        let mut i: usize = 0;
        while i < BUCKETS
            invariant
                0 <= i <= BUCKETS,
                old(self).cumulative(),
                old(self).total < u64::MAX,
                self.total == old(self).total,
                forall|k: int|
                    0 <= k < i ==> self.counts@[k] == old(self).counts@[k] + hit(latency, k),
                forall|k: int| i <= k < BUCKETS ==> self.counts@[k] == old(self).counts@[k],
            decreases BUCKETS - i,
        {
            if latency.nanos <= bucket_bound(i) {
                self.counts[i] = self.counts[i] + 1;
            }
            i = i + 1;
        }
        self.total = self.total + 1;
    }
}

/// What one latency adds to bucket `i`.
pub open spec fn hit(latency: Duration, i: int) -> nat {
    if latency.nanos <= bucket_nanos(i) {
        1
    } else {
        0
    }
}

/// The latencies of one series.
#[derive(Debug)]
pub struct Latency {
    /// The latencies by bucket.
    pub histogram: Histogram,
    /// The sum of the latencies in seconds, as it is printed.
    pub sum: String,
}

// ---------------------------------------------------------------------------
// Registry
// ---------------------------------------------------------------------------

/// Everything known about one device, refreshed by the poller.
#[derive(Debug)]
pub struct DeviceState {
    /// Whether the device is enumerated.
    pub present: bool,
    /// USB device number. Increments on every re-enumeration.
    pub usb_devnum: Option<u64>,
    /// Which kernel HID driver owns the interfaces.
    pub kernel_driver: Option<String>,
    /// The firmware version.
    pub firmware: Option<String>,
    /// The serial number.
    pub serial: Option<String>,
    /// The operating mode.
    pub device_mode: Option<u8>,
    /// The polling rate.
    pub poll_rate_hz: Option<u32>,
    /// The brightness, out of 255.
    pub brightness: Option<u8>,
    /// The transaction id the device is addressed with.
    pub transaction_id: Option<u8>,
}

impl Default for DeviceState {
    fn default() -> (state: Self)
        ensures
            !state.present,
            state.usb_devnum is None,
            state.kernel_driver is None,
            state.firmware is None,
            state.serial is None,
            state.device_mode is None,
            state.poll_rate_hz is None,
            state.brightness is None,
            state.transaction_id is None,
    {
        DeviceState {
            present: false,
            usb_devnum: None,
            kernel_driver: None,
            firmware: None,
            serial: None,
            device_mode: None,
            poll_rate_hz: None,
            brightness: None,
            transaction_id: None,
        }
    }
}

/// The count under a key, zero where there is none.
pub open spec fn count_of(rows: Seq<(KeyText, u64)>, key: KeyText) -> nat {
    match lookup(rows, key) {
        Some(n) => n as nat,
        None => 0,
    }
}

/// How many latencies bucket `i` of a series counts, zero where there is no
/// such series.
pub open spec fn bucket_count(rows: Seq<(KeyText, Latency)>, key: KeyText, i: int) -> nat {
    match lookup(rows, key) {
        Some(latency) => latency.histogram.counts@[i] as nat,
        None => 0,
    }
}

/// How many latencies a series counts, zero where there is no such series.
pub open spec fn latency_count(rows: Seq<(KeyText, Latency)>, key: KeyText) -> nat {
    match lookup(rows, key) {
        Some(latency) => latency.histogram.total as nat,
        None => 0,
    }
}

/// Whether `after` is `before` with one more latency in the series `key`.
pub open spec fn latency_added(
    before: Seq<(KeyText, Latency)>,
    key: KeyText,
    duration: Duration,
    sum: Seq<char>,
    after: Seq<(KeyText, Latency)>,
) -> bool {
    exists|latency: Latency|
        {
            &&& #[trigger] is_set(before, key, latency, after)
            &&& latency.histogram.total == latency_count(before, key) + 1
            &&& forall|i: int|
                0 <= i < BUCKETS ==> latency.histogram.counts@[i] == bucket_count(before, key, i)
                    + hit(duration, i)
            &&& latency.sum@ == sum
        }
}

/// Whether `after` is `before` with one more transaction recorded.
pub open spec fn records(
    before: Metrics,
    labels: &DeviceLabels,
    command: Seq<char>,
    attempts: u32,
    duration: Duration,
    latency_sum: Seq<char>,
    error: Option<Seq<char>>,
    after: Metrics,
) -> bool {
    &&& after.exposes_serial() == before.exposes_serial()
    &&& after.devices() == before.devices()
    &&& is_set(
        before.transactions(),
        labels.key(command),
        (count_of(before.transactions(), labels.key(command)) + 1) as u64,
        after.transactions(),
    )
    &&& is_set(
        before.attempts(),
        labels.key(command),
        (count_of(before.attempts(), labels.key(command)) + attempts) as u64,
        after.attempts(),
    )
    &&& latency_added(
        before.latency(),
        labels.key(command),
        duration,
        latency_sum,
        after.latency(),
    )
    &&& match error {
        Some(reason) => is_set(
            before.errors(),
            labels.key(reason),
            (count_of(before.errors(), labels.key(reason)) + 1) as u64,
            after.errors(),
        ),
        None => after.errors() == before.errors(),
    }
    &&& after.polls() == before.polls()
    &&& after.poll_failures() == before.poll_failures()
    &&& after.last_poll_duration() == before.last_poll_duration()
}

/// Whether `after` is `before` with the state of one device replaced.
pub open spec fn updates_device(
    before: Metrics,
    labels: &DeviceLabels,
    state: DeviceState,
    after: Metrics,
) -> bool {
    &&& after.exposes_serial() == before.exposes_serial()
    &&& is_set(before.devices(), labels.key(""@), state, after.devices())
    &&& after.transactions() == before.transactions()
    &&& after.attempts() == before.attempts()
    &&& after.errors() == before.errors()
    &&& after.latency() == before.latency()
    &&& after.polls() == before.polls()
    &&& after.poll_failures() == before.poll_failures()
    &&& after.last_poll_duration() == before.last_poll_duration()
}

/// Whether `after` is `before` with one more poll cycle.
pub open spec fn polled(before: Metrics, duration: Seq<char>, failed: bool, after: Metrics) -> bool {
    &&& after.exposes_serial() == before.exposes_serial()
    &&& after.devices() == before.devices()
    &&& after.transactions() == before.transactions()
    &&& after.attempts() == before.attempts()
    &&& after.errors() == before.errors()
    &&& after.latency() == before.latency()
    &&& after.polls() == before.polls() + 1
    &&& after.poll_failures() == before.poll_failures() + (if failed {
        1int
    } else {
        0
    })
    &&& after.last_poll_duration() == duration
}

/// The metric registry.
#[derive(Debug)]
pub struct Metrics {
    expose_serial: bool,
    devices: Table<DeviceState>,
    transactions: Table<u64>,
    attempts: Table<u64>,
    errors: Table<u64>,
    latency: Table<Latency>,
    polls: u64,
    poll_failures: u64,
    last_poll_duration: String,
}

impl Metrics {
    /// Whether serial numbers are exported.
    pub closed spec fn exposes_serial(&self) -> bool {
        self.expose_serial
    }

    /// The cached states, by device.
    pub closed spec fn devices(&self) -> Seq<(KeyText, DeviceState)> {
        self.devices.rows()
    }

    /// Completed transactions, by device and command.
    pub closed spec fn transactions(&self) -> Seq<(KeyText, u64)> {
        self.transactions.rows()
    }

    /// Attempts consumed, by device and command.
    pub closed spec fn attempts(&self) -> Seq<(KeyText, u64)> {
        self.attempts.rows()
    }

    /// Failed transactions, by device and reason.
    pub closed spec fn errors(&self) -> Seq<(KeyText, u64)> {
        self.errors.rows()
    }

    /// Latencies, by device and command.
    pub closed spec fn latency(&self) -> Seq<(KeyText, Latency)> {
        self.latency.rows()
    }

    /// Poll cycles run.
    pub closed spec fn polls(&self) -> u64 {
        self.polls
    }

    /// Poll cycles that failed.
    pub closed spec fn poll_failures(&self) -> u64 {
        self.poll_failures
    }

    /// Duration of the most recent poll cycle in seconds, as it is printed.
    pub closed spec fn last_poll_duration(&self) -> Seq<char> {
        self.last_poll_duration@
    }

    /// Series are in order, histograms are cumulative, and every transaction has
    /// its latency counted.
    pub closed spec fn wf(&self) -> bool {
        &&& self.devices.wf()
        &&& self.transactions.wf()
        &&& self.attempts.wf()
        &&& self.errors.wf()
        &&& self.latency.wf()
        &&& latencies_agree(self.transactions.rows(), self.latency.rows())
        &&& self.poll_failures <= self.polls
    }

    /// Whether the counters can take one more transaction.
    pub open spec fn room(
        &self,
        labels: &DeviceLabels,
        command: Seq<char>,
        attempts: u32,
        error: Option<&str>,
    ) -> bool {
        &&& count_of(self.transactions(), labels.key(command)) < u64::MAX
        &&& count_of(self.attempts(), labels.key(command)) + attempts <= u64::MAX
        &&& match error {
            Some(reason) => count_of(self.errors(), labels.key(reason@)) < u64::MAX,
            None => true,
        }
    }

    /// An empty registry.
    #[must_use]
    pub fn new(expose_serial: bool) -> (metrics: Self)
        ensures
            metrics.wf(),
            metrics.exposes_serial() == expose_serial,
            metrics.devices() == Seq::<(KeyText, DeviceState)>::empty(),
            metrics.transactions() == Seq::<(KeyText, u64)>::empty(),
            metrics.attempts() == Seq::<(KeyText, u64)>::empty(),
            metrics.errors() == Seq::<(KeyText, u64)>::empty(),
            metrics.latency() == Seq::<(KeyText, Latency)>::empty(),
            metrics.polls() == 0,
            metrics.poll_failures() == 0,
            metrics.last_poll_duration() == "0.000000"@,
    {
        Metrics {
            expose_serial,
            devices: Table::new(),
            transactions: Table::new(),
            attempts: Table::new(),
            errors: Table::new(),
            latency: Table::new(),
            polls: 0,
            poll_failures: 0,
            last_poll_duration: "0.000000".to_owned(),
        }
    }

    /// Whether the counters can take one more transaction.
    pub fn has_room(
        &self,
        labels: &DeviceLabels,
        command: &str,
        attempts: u32,
        error: Option<&str>,
    ) -> (r: bool)
        requires
            self.wf(),
        ensures
            r == self.room(labels, command@, attempts, error),
    {
        let key = SeriesKey::new(labels, command);
        let transactions: u64 = count(&self.transactions, &key);
        let tried: u64 = count(&self.attempts, &key);
        if transactions == u64::MAX || tried > u64::MAX - attempts as u64 {
            return false;
        }
        match error {
            Some(reason) => {
                let why = SeriesKey::new(labels, reason);
                let failed: u64 = count(&self.errors, &why);
                failed < u64::MAX
            },
            None => true,
        }
    }

    /// Record a completed transaction.
    ///
    /// `attempts` comes from `Session::last_attempts()`; `1` is a clean pass.
    /// `latency_sum` is the sum of all latencies of the series, this one
    /// included, in seconds, as it is to be printed.
    pub fn record_transaction(
        &mut self,
        labels: &DeviceLabels,
        command: &str,
        attempts: u32,
        duration: Duration,
        latency_sum: &str,
        error: Option<&str>,
    )
        requires
            old(self).wf(),
            old(self).room(labels, command@, attempts, error),
        ensures
            final(self).wf(),
            records(
                *old(self),
                labels,
                command@,
                attempts,
                duration,
                latency_sum@,
                match error {
                    Some(reason) => Some(reason@),
                    None => None,
                },
                *final(self),
            ),
    {
        let key = SeriesKey::new(labels, command);
        let ghost text = key@;
        let ghost before = self.latency.rows();
        let transactions: u64 = count(&self.transactions, &key);
        let tried: u64 = count(&self.attempts, &key);
        proof {
            lemma_agreement(self.transactions.rows(), before, text);
        }
        let mut histogram = match self.latency.get(&key) {
            Some(latency) => latency.histogram,
            None => Histogram::new(),
        };
        histogram.observe(duration);
        let latency = Latency { histogram, sum: latency_sum.to_owned() };
        let ghost added = latency;
        self.transactions.set(SeriesKey::new(labels, command), transactions + 1);
        self.attempts.set(SeriesKey::new(labels, command), tried + attempts as u64);
        self.latency.set(key, latency);
        proof {
            assert(is_set(before, text, added, self.latency.rows()));
            lemma_agreement_kept(
                old(self).transactions.rows(),
                before,
                text,
                added,
                self.transactions.rows(),
                self.latency.rows(),
            );
        }
        match error {
            Some(reason) => {
                let why = SeriesKey::new(labels, reason);
                let failed: u64 = count(&self.errors, &why);
                self.errors.set(why, failed + 1);
            },
            None => {},
        }
    }

    /// Replace a device's cached state after a poll.
    pub fn set_device_state(&mut self, labels: &DeviceLabels, state: DeviceState)
        requires
            old(self).wf(),
        ensures
            final(self).wf(),
            updates_device(*old(self), labels, state, *final(self)),
    {
        self.devices.set(SeriesKey::new(labels, ""), state);
    }

    /// How many poll cycles have been run.
    pub fn poll_count(&self) -> (n: u64)
        ensures
            n == self.polls(),
    {
        self.polls
    }

    /// Record a poll cycle. `duration` is in seconds, as it is to be printed.
    pub fn record_poll(&mut self, duration: &str, failed: bool)
        requires
            old(self).wf(),
            old(self).polls() < u64::MAX,
        ensures
            final(self).wf(),
            polled(*old(self), duration@, failed, *final(self)),
    {
        self.polls = self.polls + 1;
        self.last_poll_duration = duration.to_owned();
        if failed {
            self.poll_failures = self.poll_failures + 1;
        }
    }
}

/// The count under a key, zero where there is none.
fn count(table: &Table<u64>, key: &SeriesKey) -> (n: u64)
    requires
        table.wf(),
    ensures
        n == count_of(table.rows(), key@),
{
    match table.get(key) {
        Some(n) => *n,
        None => 0,
    }
}

/// Every histogram is cumulative, and counts as many latencies as there are
/// transactions of its series.
pub open spec fn latencies_agree(
    transactions: Seq<(KeyText, u64)>,
    latency: Seq<(KeyText, Latency)>,
) -> bool {
    forall|key: KeyText|
        {
            &&& (#[trigger] lookup(latency, key)) is Some ==> lookup(
                latency,
                key,
            )->0.histogram.cumulative()
            &&& latency_count(latency, key) == count_of(transactions, key)
        }
}

/// Agreement at one key.
proof fn lemma_agreement(
    transactions: Seq<(KeyText, u64)>,
    latency: Seq<(KeyText, Latency)>,
    key: KeyText,
)
    requires
        latencies_agree(transactions, latency),
    ensures
        lookup(latency, key) is Some ==> lookup(latency, key)->0.histogram.cumulative(),
        latency_count(latency, key) == count_of(transactions, key),
{
    assert(lookup(latency, key) is Some || lookup(latency, key) is None);
}

/// One more transaction and one more latency in the same series agree again.
proof fn lemma_agreement_kept(
    transactions: Seq<(KeyText, u64)>,
    latency: Seq<(KeyText, Latency)>,
    key: KeyText,
    added: Latency,
    transactions_after: Seq<(KeyText, u64)>,
    latency_after: Seq<(KeyText, Latency)>,
)
    requires
        latencies_agree(transactions, latency),
        count_of(transactions, key) < u64::MAX,
        is_set(
            transactions,
            key,
            (count_of(transactions, key) + 1) as u64,
            transactions_after,
        ),
        is_set(latency, key, added, latency_after),
        added.histogram.cumulative(),
        added.histogram.total == latency_count(latency, key) + 1,
    ensures
        latencies_agree(transactions_after, latency_after),
{
    assert forall|k: KeyText|
        {
            &&& (#[trigger] lookup(latency_after, k)) is Some ==> lookup(
                latency_after,
                k,
            )->0.histogram.cumulative()
            &&& latency_count(latency_after, k) == count_of(transactions_after, k)
        } by {
        lemma_agreement(transactions, latency, k);
        assert(lookup(transactions_after, k) == (if k == key {
            Some((count_of(transactions, key) + 1) as u64)
        } else {
            lookup(transactions, k)
        }));
    }
}

// ---------------------------------------------------------------------------
// Laws
// ---------------------------------------------------------------------------

impl Metrics {
    /// In every registry, each latency series counts as many latencies as there
    /// are transactions of it, and its buckets are cumulative.
    pub proof fn law_every_transaction_has_a_latency(&self, key: KeyText)
        requires
            self.wf(),
        ensures
            latency_count(self.latency(), key) == count_of(self.transactions(), key),
            lookup(self.latency(), key) is Some ==> lookup(
                self.latency(),
                key,
            )->0.histogram.cumulative(),
            self.poll_failures() <= self.polls(),
    {
        lemma_agreement(self.transactions(), self.latency(), key);
    }

    /// In every registry, series are listed in ascending order of their keys and
    /// no series is listed twice.
    pub proof fn law_series_are_ordered(&self)
        requires
            self.wf(),
        ensures
            sorted(self.devices()),
            sorted(self.transactions()),
            sorted(self.attempts()),
            sorted(self.errors()),
            sorted(self.latency()),
    {
        self.devices.lemma_rows_are_sorted();
        self.transactions.lemma_rows_are_sorted();
        self.attempts.lemma_rows_are_sorted();
        self.errors.lemma_rows_are_sorted();
        self.latency.lemma_rows_are_sorted();
    }
}

/// As long as every transaction takes at least one attempt, attempts never fall
/// behind transactions: recording one more keeps the attempts of every series
/// at or above its transactions.
pub proof fn law_attempts_keep_up_with_transactions(
    transactions: Seq<(KeyText, u64)>,
    attempts: Seq<(KeyText, u64)>,
    key: KeyText,
    tried: u32,
    transactions_after: Seq<(KeyText, u64)>,
    attempts_after: Seq<(KeyText, u64)>,
    other: KeyText,
)
    requires
        tried >= 1,
        count_of(transactions, key) < u64::MAX,
        count_of(attempts, key) + tried <= u64::MAX,
        forall|k: KeyText| #[trigger] count_of(transactions, k) <= count_of(attempts, k),
        is_set(transactions, key, (count_of(transactions, key) + 1) as u64, transactions_after),
        is_set(attempts, key, (count_of(attempts, key) + tried) as u64, attempts_after),
    ensures
        count_of(transactions_after, other) <= count_of(attempts_after, other),
{
    assert(count_of(transactions, other) <= count_of(attempts, other));
    assert(lookup(transactions_after, other) == (if other == key {
        Some((count_of(transactions, key) + 1) as u64)
    } else {
        lookup(transactions, other)
    }));
    assert(lookup(attempts_after, other) == (if other == key {
        Some((count_of(attempts, key) + tried) as u64)
    } else {
        lookup(attempts, other)
    }));
}

/// Escaping goes character by character: two texts escape to what they escape to
/// apart, the four characters that would break a line or a value are escaped with
/// a backslash, and every other character stays as it is.
pub proof fn law_escaping_goes_by_character(a: Seq<char>, b: Seq<char>, c: char)
    ensures
        escaped(a + b) == escaped(a) + escaped(b),
        c == '\\' ==> escaped(seq![c]) == seq!['\\', '\\'],
        c == '"' ==> escaped(seq![c]) == seq!['\\', '"'],
        c == '\n' ==> escaped(seq![c]) == seq!['\\', 'n'],
        c == '\r' ==> escaped(seq![c]) == seq!['\\', 'r'],
        c != '\\' && c != '"' && c != '\n' && c != '\r' ==> escaped(seq![c]) == seq![c],
    decreases b.len(),
{
    lemma_escape_first(seq![c]);
    assert(seq![c].skip(1) =~= Seq::empty());
    assert(escaped_char(c) + Seq::<char>::empty() =~= escaped_char(c));
    lemma_escape_first(Seq::empty());
    assert(escaped(Seq::empty()) =~= Seq::<char>::empty());
    if b.len() > 0 {
        assert((a + b).drop_last() =~= a + b.drop_last());
        assert((a + b).last() == b.last());
        law_escaping_goes_by_character(a, b.drop_last(), c);
        assert(escaped(a) + (escaped(b.drop_last()) + escaped_char(b.last())) =~= escaped(a)
            + escaped(b.drop_last()) + escaped_char(b.last()));
    } else {
        assert(a + b =~= a);
        assert(b =~= Seq::empty());
        assert(escaped(a) + Seq::<char>::empty() =~= escaped(a));
    }
}

/// A text without any of the four special characters stays as it is.
pub proof fn law_plain_text_is_not_escaped(s: Seq<char>)
    requires
        forall|i: int|
            0 <= i < s.len() ==> {
                let c = #[trigger] s[i];
                c != '\\' && c != '"' && c != '\n' && c != '\r'
            },
    ensures
        escaped(s) == s,
    decreases s.len(),
{
    if s.len() > 0 {
        let front = s.drop_last();
        assert forall|i: int| 0 <= i < front.len() implies {
            let c = #[trigger] front[i];
            c != '\\' && c != '"' && c != '\n' && c != '\r'
        } by {
            assert(front[i] == s[i]);
        }
        law_plain_text_is_not_escaped(front);
        let last = s[s.len() - 1];
        assert(s =~= front + seq![last]);
    } else {
        assert(s =~= Seq::empty());
    }
}

/// The eleven bounds are those printed: half a millisecond to a second.
pub proof fn law_the_bounds_are_those_printed()
    ensures
        bucket_nanos(0) == 500_000 && bucket_text(0) == "0.0005"@,
        bucket_nanos(1) == 1_000_000 && bucket_text(1) == "0.001"@,
        bucket_nanos(2) == 2_000_000 && bucket_text(2) == "0.002"@,
        bucket_nanos(3) == 5_000_000 && bucket_text(3) == "0.005"@,
        bucket_nanos(4) == 10_000_000 && bucket_text(4) == "0.01"@,
        bucket_nanos(5) == 25_000_000 && bucket_text(5) == "0.025"@,
        bucket_nanos(6) == 50_000_000 && bucket_text(6) == "0.05"@,
        bucket_nanos(7) == 100_000_000 && bucket_text(7) == "0.1"@,
        bucket_nanos(8) == 250_000_000 && bucket_text(8) == "0.25"@,
        bucket_nanos(9) == 500_000_000 && bucket_text(9) == "0.5"@,
        bucket_nanos(10) == 1_000_000_000 && bucket_text(10) == "1"@,
{
}

/// A latency counts in a bucket exactly where it does not exceed the bound, the
/// bound itself included, so it counts in every later bucket too.
pub proof fn law_a_latency_counts_up_to_the_bound(latency: Duration, i: int, j: int)
    requires
        0 <= i <= j < 11,
    ensures
        latency.nanos <= bucket_nanos(i) ==> hit(latency, i) == 1,
        latency.nanos > bucket_nanos(i) ==> hit(latency, i) == 0,
        hit(latency, i) <= hit(latency, j),
{
    law_the_bounds_are_those_printed();
}

/// One more transaction adds one to the transactions of its series, its attempts
/// to the attempts, and one to the errors of its reason where it failed.
pub proof fn law_a_transaction_is_counted(
    before: Metrics,
    labels: &DeviceLabels,
    command: Seq<char>,
    attempts: u32,
    duration: Duration,
    latency_sum: Seq<char>,
    error: Option<Seq<char>>,
    after: Metrics,
)
    requires
        records(before, labels, command, attempts, duration, latency_sum, error, after),
        count_of(before.transactions(), labels.key(command)) < u64::MAX,
        count_of(before.attempts(), labels.key(command)) + attempts <= u64::MAX,
        error is Some ==> count_of(before.errors(), labels.key(error->0)) < u64::MAX,
    ensures
        count_of(after.transactions(), labels.key(command)) == count_of(
            before.transactions(),
            labels.key(command),
        ) + 1,
        count_of(after.attempts(), labels.key(command)) == count_of(
            before.attempts(),
            labels.key(command),
        ) + attempts,
        error is Some ==> count_of(after.errors(), labels.key(error->0)) == count_of(
            before.errors(),
            labels.key(error->0),
        ) + 1,
        error is None ==> after.errors() == before.errors(),
        after.devices() == before.devices(),
        after.exposes_serial() == before.exposes_serial(),
        after.polls() == before.polls(),
        after.poll_failures() == before.poll_failures(),
        after.last_poll_duration() == before.last_poll_duration(),
{
    let key = labels.key(command);
    assert(lookup(after.transactions(), key) is Some);
    assert(lookup(after.attempts(), key) is Some);
    if error is Some {
        assert(lookup(after.errors(), labels.key(error->0)) is Some);
    }
}

/// A transaction leaves every series but its own as it was.
pub proof fn law_other_series_are_left_alone(
    before: Metrics,
    labels: &DeviceLabels,
    command: Seq<char>,
    attempts: u32,
    duration: Duration,
    latency_sum: Seq<char>,
    error: Option<Seq<char>>,
    after: Metrics,
    other: KeyText,
)
    requires
        records(before, labels, command, attempts, duration, latency_sum, error, after),
    ensures
        other != labels.key(command) ==> {
            &&& lookup(after.transactions(), other) == lookup(before.transactions(), other)
            &&& lookup(after.attempts(), other) == lookup(before.attempts(), other)
            &&& lookup(after.latency(), other) == lookup(before.latency(), other)
        },
        error is None || other != labels.key(error->0) ==> lookup(after.errors(), other) == lookup(
            before.errors(),
            other,
        ),
{
    let key = labels.key(command);
    let latency = choose|latency: Latency|
        {
            &&& #[trigger] is_set(before.latency(), key, latency, after.latency())
            &&& latency.histogram.total == latency_count(before.latency(), key) + 1
            &&& forall|i: int|
                0 <= i < BUCKETS ==> latency.histogram.counts@[i] == bucket_count(
                    before.latency(),
                    key,
                    i,
                ) + hit(duration, i)
            &&& latency.sum@ == latency_sum
        };
    law_setting_changes_one_series(before.latency(), key, latency, after.latency(), other);
    if other != key {
        assert(lookup(after.transactions(), other) == lookup(before.transactions(), other));
        assert(lookup(after.attempts(), other) == lookup(before.attempts(), other));
    }
    if error is Some {
        assert(lookup(after.errors(), other) == lookup(after.errors(), other));
    }
}

/// The latency of a transaction is counted once in all, once in every bucket
/// whose bound it does not exceed, and the sum is the one given.
pub proof fn law_a_latency_is_counted(
    before: Metrics,
    labels: &DeviceLabels,
    command: Seq<char>,
    attempts: u32,
    duration: Duration,
    latency_sum: Seq<char>,
    error: Option<Seq<char>>,
    after: Metrics,
    i: int,
)
    requires
        records(before, labels, command, attempts, duration, latency_sum, error, after),
        0 <= i < 11,
    ensures
        latency_count(after.latency(), labels.key(command)) == latency_count(
            before.latency(),
            labels.key(command),
        ) + 1,
        bucket_count(after.latency(), labels.key(command), i) == bucket_count(
            before.latency(),
            labels.key(command),
            i,
        ) + (if duration.nanos <= bucket_nanos(i) {
            1int
        } else {
            0
        }),
        lookup(after.latency(), labels.key(command)) is Some,
        lookup(after.latency(), labels.key(command))->0.sum@ == latency_sum,
{
    let key = labels.key(command);
    let latency = choose|latency: Latency|
        {
            &&& #[trigger] is_set(before.latency(), key, latency, after.latency())
            &&& latency.histogram.total == latency_count(before.latency(), key) + 1
            &&& forall|k: int|
                0 <= k < BUCKETS ==> latency.histogram.counts@[k] == bucket_count(
                    before.latency(),
                    key,
                    k,
                ) + hit(duration, k)
            &&& latency.sum@ == latency_sum
        };
    law_setting_changes_one_series(before.latency(), key, latency, after.latency(), key);
}

/// A poll of a device replaces its own state, whole, and nothing else.
pub proof fn law_a_device_state_is_replaced(
    before: Metrics,
    labels: &DeviceLabels,
    state: DeviceState,
    after: Metrics,
    other: KeyText,
)
    requires
        updates_device(before, labels, state, after),
    ensures
        lookup(after.devices(), labels.key(""@)) == Some(state),
        other != labels.key(""@) ==> lookup(after.devices(), other) == lookup(
            before.devices(),
            other,
        ),
        after.transactions() == before.transactions(),
        after.attempts() == before.attempts(),
        after.errors() == before.errors(),
        after.latency() == before.latency(),
        after.exposes_serial() == before.exposes_serial(),
        after.polls() == before.polls(),
        after.poll_failures() == before.poll_failures(),
{
    law_setting_changes_one_series(
        before.devices(),
        labels.key(""@),
        state,
        after.devices(),
        other,
    );
}

/// A poll cycle is counted once, as a failure exactly where it failed, and its
/// duration is the one given.
pub proof fn law_a_poll_is_counted(
    before: Metrics,
    duration: Seq<char>,
    failed: bool,
    after: Metrics,
)
    requires
        polled(before, duration, failed, after),
    ensures
        after.polls() == before.polls() + 1,
        failed ==> after.poll_failures() == before.poll_failures() + 1,
        !failed ==> after.poll_failures() == before.poll_failures(),
        after.last_poll_duration() == duration,
        after.devices() == before.devices(),
        after.transactions() == before.transactions(),
        after.attempts() == before.attempts(),
        after.errors() == before.errors(),
        after.latency() == before.latency(),
        after.exposes_serial() == before.exposes_serial(),
{
}

}
