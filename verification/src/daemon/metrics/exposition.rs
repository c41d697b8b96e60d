//! Printing the registry in the Prometheus text format.
use vstd::prelude::*;
use vstd::string::StringExecFns;

use crate::daemon::metrics::{
    bucket_label, bucket_text, escape, escaped, labels_text, DeviceState, Histogram, Latency,
    Metrics, BUCKETS,
};
use crate::daemon::table::{KeyText, SeriesKey, Table};
use crate::text::{
    decimal, pad_left, push_decimal, push_pad_left, push_upper_hex, upper_hex,
};

verus! {

/// The two comment lines before a metric.
pub open spec fn header_text(name: Seq<char>, help: Seq<char>, kind: Seq<char>) -> Seq<char> {
    "# HELP "@ + name + " "@ + help + "\n# TYPE "@ + name + " "@ + kind + "\n"@
}

/// Appends the two comment lines before a metric.
fn push_header(out: &mut String, name: &str, help: &str, kind: &str)
    ensures
        final(out)@ == old(out)@ + header_text(name@, help@, kind@),
{
    out.append("# HELP ");
    out.append(name);
    out.append(" ");
    out.append(help);
    out.append("\n# TYPE ");
    out.append(name);
    out.append(" ");
    out.append(kind);
    out.append("\n");
    assert(out@ =~= old(out)@ + header_text(name@, help@, kind@));
}

/// The metrics that have one value per device.
#[derive(Debug, Clone, Copy, PartialEq, Eq, Structural)]
pub enum DeviceMetric {
    /// Identity.
    Info,
    /// Enumerated or not.
    Present,
    /// USB device number.
    UsbDevnum,
    /// Kernel driver.
    KernelDriver,
    /// Operating mode.
    Mode,
    /// Polling rate.
    PollRate,
    /// Brightness.
    Brightness,
}

impl DeviceMetric {
    /// The metric's name.
    pub open spec fn name(self) -> Seq<char> {
        match self {
            DeviceMetric::Info => "razer_device_info"@,
            DeviceMetric::Present => "razer_device_present"@,
            DeviceMetric::UsbDevnum => "razer_device_usb_devnum"@,
            DeviceMetric::KernelDriver => "razer_device_kernel_driver"@,
            DeviceMetric::Mode => "razer_device_mode"@,
            DeviceMetric::PollRate => "razer_device_poll_rate_hz"@,
            DeviceMetric::Brightness => "razer_device_brightness_ratio"@,
        }
    }

    /// The metric's help text.
    pub open spec fn help(self) -> Seq<char> {
        match self {
            DeviceMetric::Info =>
                "Device identity. Serial is only present when --expose-serial is set."@,
            DeviceMetric::Present => "1 if the device is currently enumerated."@,
            DeviceMetric::UsbDevnum =>
                "USB device number. Increments on every re-enumeration, so changes() over a window counts USB disconnects."@,
            DeviceMetric::KernelDriver => "Which in-kernel HID driver owns the interfaces."@,
            DeviceMetric::Mode =>
                "Operating mode: 0 normal, 3 driver. Driver mode is the state in which the upstream razerkbd transaction-id defect resets this hardware."@,
            DeviceMetric::PollRate => "Polling rate in hertz."@,
            DeviceMetric::Brightness => "Backlight brightness, 0-1."@,
        }
    }

    /// Appends the two comment lines before the metric.
    fn push_header(self, out: &mut String)
        ensures
            final(out)@ == old(out)@ + header_text(self.name(), self.help(), "gauge"@),
    {
        match self {
            DeviceMetric::Info => push_header(
                out,
                "razer_device_info",
                "Device identity. Serial is only present when --expose-serial is set.",
                "gauge",
            ),
            DeviceMetric::Present => push_header(
                out,
                "razer_device_present",
                "1 if the device is currently enumerated.",
                "gauge",
            ),
            DeviceMetric::UsbDevnum => push_header(
                out,
                "razer_device_usb_devnum",
                "USB device number. Increments on every re-enumeration, so changes() over a window counts USB disconnects.",
                "gauge",
            ),
            DeviceMetric::KernelDriver => push_header(
                out,
                "razer_device_kernel_driver",
                "Which in-kernel HID driver owns the interfaces.",
                "gauge",
            ),
            DeviceMetric::Mode => push_header(
                out,
                "razer_device_mode",
                "Operating mode: 0 normal, 3 driver. Driver mode is the state in which the upstream razerkbd transaction-id defect resets this hardware.",
                "gauge",
            ),
            DeviceMetric::PollRate => push_header(
                out,
                "razer_device_poll_rate_hz",
                "Polling rate in hertz.",
                "gauge",
            ),
            DeviceMetric::Brightness => push_header(
                out,
                "razer_device_brightness_ratio",
                "Backlight brightness, 0-1.",
                "gauge",
            ),
        }
    }
}

/// A label after the device's own, where there is a value for it.
pub open spec fn label_text(name: Seq<char>, value: Option<String>) -> Seq<char> {
    match value {
        Some(text) => ","@ + name + "=\""@ + escaped(text@) + "\""@,
        None => Seq::empty(),
    }
}

/// Appends a label after the device's own, where there is a value for it.
fn push_label(out: &mut String, name: &str, value: &Option<String>)
    ensures
        final(out)@ == old(out)@ + label_text(name@, *value),
{
    match value {
        Some(text) => {
            out.append(",");
            out.append(name);
            out.append("=\"");
            let e = escape(text.as_str());
            out.append(e.as_str());
            out.append("\"");
        },
        None => {},
    }
    assert(out@ =~= old(out)@ + label_text(name@, *value));
}

/// The transaction id label, where the id is known.
pub open spec fn transaction_id_label(tid: Option<u8>) -> Seq<char> {
    match tid {
        Some(t) => ",transaction_id=\"0x"@ + upper_hex(t as nat, 2) + "\""@,
        None => Seq::empty(),
    }
}

/// Appends the transaction id label, where the id is known.
fn push_transaction_id_label(out: &mut String, tid: Option<u8>)
    ensures
        final(out)@ == old(out)@ + transaction_id_label(tid),
{
    match tid {
        Some(t) => {
            out.append(",transaction_id=\"0x");
            push_upper_hex(out, t as u64, 2);
            out.append("\"");
        },
        None => {},
    }
    assert(out@ =~= old(out)@ + transaction_id_label(tid));
}

/// `b / 255` rounded to four decimals.
pub open spec fn ratio_text(b: u8) -> Seq<char> {
    let q = (b * 20000 + 255) / 510;
    decimal((q / 10000) as nat) + "."@ + pad_left(decimal((q % 10000) as nat), 4, '0')
}

/// The rounding is to the nearest ten-thousandth: the printed value is within
/// half a ten-thousandth of `b / 255`, and no value lies exactly between two.
pub proof fn law_ratio_is_rounded_to_nearest(b: u8)
    ensures
        ({
            let q = (b * 20000 + 255) / 510;
            &&& 0 <= q <= 10000
            &&& -255 < 2 * (q * 255 - b * 10000) < 255
        }),
{
    let q = (b * 20000 + 255) / 510;
    let r = (b * 20000 + 255) % 510;
    assert(q * 510 + r == b * 20000 + 255);
    assert(2 * (q * 255 - b * 10000) == 255 - r);
    assert(r % 5 == (b * 20000 + 255) % 5);
    assert(r != 0) by {
        // 510 divides b * 20000 + 255 only if 2 divides it.
        assert((b * 20000 + 255) % 2 == 1);
    }
}

/// Appends `b / 255` rounded to four decimals.
fn push_ratio(out: &mut String, b: u8)
    ensures
        final(out)@ == old(out)@ + ratio_text(b),
{
    let q: u64 = (b as u64 * 20000 + 255) / 510;
    push_decimal(out, q / 10000);
    out.append(".");
    let mut digits = String::new();
    push_decimal(&mut digits, q % 10000);
    assert(digits@ =~= decimal((q % 10000) as nat));
    push_pad_left(out, digits.as_str(), 4, '0');
    assert(out@ =~= old(out)@ + ratio_text(b));
}

/// The labels and value of one device, and the end of the line, where there is
/// a value.
pub open spec fn device_value(
    metric: DeviceMetric,
    expose_serial: bool,
    state: DeviceState,
) -> Option<Seq<char>> {
    match metric {
        DeviceMetric::Info => Some(
            label_text("firmware"@, state.firmware) + transaction_id_label(state.transaction_id) + (
            if expose_serial {
                label_text("serial"@, state.serial)
            } else {
                Seq::empty()
            }) + "} 1\n"@,
        ),
        DeviceMetric::Present => Some(
            if state.present {
                "} 1\n"@
            } else {
                "} 0\n"@
            },
        ),
        DeviceMetric::UsbDevnum => match state.usb_devnum {
            Some(n) => Some("} "@ + decimal(n as nat) + "\n"@),
            None => None,
        },
        DeviceMetric::KernelDriver => match state.kernel_driver {
            Some(d) => Some(label_text("driver"@, Some(d)) + "} 1\n"@),
            None => None,
        },
        DeviceMetric::Mode => match state.device_mode {
            Some(m) => Some("} "@ + decimal(m as nat) + "\n"@),
            None => None,
        },
        DeviceMetric::PollRate => match state.poll_rate_hz {
            Some(p) => Some("} "@ + decimal(p as nat) + "\n"@),
            None => None,
        },
        DeviceMetric::Brightness => match state.brightness {
            Some(b) => Some("} "@ + ratio_text(b) + "\n"@),
            None => None,
        },
    }
}

/// The line of one device, empty where there is no value.
pub open spec fn device_line(
    metric: DeviceMetric,
    expose_serial: bool,
    key: KeyText,
    state: DeviceState,
) -> Seq<char> {
    match device_value(metric, expose_serial, state) {
        Some(value) => metric.name() + "{"@ + labels_text(key.device, key.pid) + value,
        None => Seq::empty(),
    }
}

/// The lines of all devices.
pub open spec fn device_lines(
    metric: DeviceMetric,
    expose_serial: bool,
    rows: Seq<(KeyText, DeviceState)>,
) -> Seq<char>
    decreases rows.len(),
{
    if rows.len() == 0 {
        Seq::empty()
    } else {
        device_lines(metric, expose_serial, rows.drop_last()) + device_line(
            metric,
            expose_serial,
            rows.last().0,
            rows.last().1,
        )
    }
}

/// A metric with its lines for all devices.
pub open spec fn device_section(
    metric: DeviceMetric,
    expose_serial: bool,
    rows: Seq<(KeyText, DeviceState)>,
) -> Seq<char> {
    header_text(metric.name(), metric.help(), "gauge"@) + device_lines(metric, expose_serial, rows)
}

/// The text of one device's labels and value, and the end of the line, where
/// there is a value.
fn device_value_text(metric: DeviceMetric, expose_serial: bool, state: &DeviceState) -> (value:
    Option<String>)
    ensures
        match value {
            Some(text) => device_value(metric, expose_serial, *state) == Some(text@),
            None => device_value(metric, expose_serial, *state) is None,
        },
{
    match metric {
        DeviceMetric::Info => {
            let mut out = String::new();
            push_label(&mut out, "firmware", &state.firmware);
            push_transaction_id_label(&mut out, state.transaction_id);
            if expose_serial {
                push_label(&mut out, "serial", &state.serial);
            }
            out.append("} 1\n");
            assert(Some(out@) =~= device_value(metric, expose_serial, *state)) by {
                assert(out@ =~= label_text("firmware"@, state.firmware) + transaction_id_label(
                    state.transaction_id,
                ) + (if expose_serial {
                    label_text("serial"@, state.serial)
                } else {
                    Seq::empty()
                }) + "} 1\n"@);
            }
            Some(out)
        },
        DeviceMetric::Present => if state.present {
            Some("} 1\n".to_owned())
        } else {
            Some("} 0\n".to_owned())
        },
        DeviceMetric::UsbDevnum => match state.usb_devnum {
            Some(n) => Some(number_value(n)),
            None => None,
        },
        DeviceMetric::KernelDriver => {
            if state.kernel_driver.is_none() {
                return None;
            }
            let mut out = String::new();
            push_label(&mut out, "driver", &state.kernel_driver);
            out.append("} 1\n");
            assert(out@ =~= label_text("driver"@, state.kernel_driver) + "} 1\n"@);
            Some(out)
        },
        DeviceMetric::Mode => match state.device_mode {
            Some(m) => Some(number_value(m as u64)),
            None => None,
        },
        DeviceMetric::PollRate => match state.poll_rate_hz {
            Some(p) => Some(number_value(p as u64)),
            None => None,
        },
        DeviceMetric::Brightness => match state.brightness {
            Some(b) => {
                let mut out = "} ".to_owned();
                push_ratio(&mut out, b);
                out.append("\n");
                Some(out)
            },
            None => None,
        },
    }
}

/// A number after the labels, and the end of the line.
fn number_value(n: u64) -> (text: String)
    ensures
        text@ == "} "@ + decimal(n as nat) + "\n"@,
{
    let mut out = "} ".to_owned();
    push_decimal(&mut out, n);
    out.append("\n");
    out
}

/// The metric's name.
fn metric_name(metric: DeviceMetric) -> (name: &'static str)
    ensures
        name@ == metric.name(),
{
    match metric {
        DeviceMetric::Info => "razer_device_info",
        DeviceMetric::Present => "razer_device_present",
        DeviceMetric::UsbDevnum => "razer_device_usb_devnum",
        DeviceMetric::KernelDriver => "razer_device_kernel_driver",
        DeviceMetric::Mode => "razer_device_mode",
        DeviceMetric::PollRate => "razer_device_poll_rate_hz",
        DeviceMetric::Brightness => "razer_device_brightness_ratio",
    }
}

/// Appends a metric with its lines for all devices.
fn push_device_section(
    out: &mut String,
    metric: DeviceMetric,
    expose_serial: bool,
    devices: &Table<DeviceState>,
)
    requires
        devices.wf(),
    ensures
        final(out)@ == old(out)@ + device_section(metric, expose_serial, devices.rows()),
{
    metric.push_header(out);
    let ghost start = out@;
    let ghost rows = devices.rows();
    let mut i: usize = 0;
    assert(rows.take(0) =~= Seq::empty());
    assert(out@ =~= start + device_lines(metric, expose_serial, rows.take(0)));
    while i < devices.len()
        invariant
            devices.wf(),
            rows == devices.rows(),
            0 <= i <= rows.len(),
            out@ == start + device_lines(metric, expose_serial, rows.take(i as int)),
        decreases rows.len() - i,
    {
        let ghost before = out@;
        let key = devices.key_at(i);
        let state = devices.value_at(i);
        match device_value_text(metric, expose_serial, state) {
            Some(value) => {
                out.append(metric_name(metric));
                out.append("{");
                let labels = key.labels.render();
                out.append(labels.as_str());
                out.append(value.as_str());
            },
            None => {},
        }
        proof {
            assert(out@ =~= before + device_line(metric, expose_serial, key@, *state));
            assert(rows.take(i + 1).drop_last() =~= rows.take(i as int));
            assert(rows.take(i + 1).last() == rows[i as int]);
            assert(out@ =~= start + device_lines(metric, expose_serial, rows.take(i + 1)));
        }
        i = i + 1;
    }
    assert(rows.take(i as int) =~= rows);
    assert(out@ =~= old(out)@ + device_section(metric, expose_serial, rows));
}

/// The labels of a series that has a command or reason besides its device.
pub open spec fn series_labels(key: KeyText, label: Seq<char>) -> Seq<char> {
    labels_text(key.device, key.pid) + ","@ + label + "=\""@ + escaped(key.name) + "\""@
}

/// The labels of a series that has a command or reason besides its device.
fn series_labels_text(key: &SeriesKey, label: &str) -> (text: String)
    ensures
        text@ == series_labels(key@, label@),
{
    let mut out = key.labels.render();
    out.append(",");
    out.append(label);
    out.append("=\"");
    let name = escape(key.name.as_str());
    out.append(name.as_str());
    out.append("\"");
    out
}

/// The line of one counter.
pub open spec fn counter_line(
    metric: Seq<char>,
    label: Seq<char>,
    key: KeyText,
    n: u64,
) -> Seq<char> {
    metric + "{"@ + series_labels(key, label) + "} "@ + decimal(n as nat) + "\n"@
}

/// The lines of all counters of a metric.
pub open spec fn counter_lines(
    metric: Seq<char>,
    label: Seq<char>,
    rows: Seq<(KeyText, u64)>,
) -> Seq<char>
    decreases rows.len(),
{
    if rows.len() == 0 {
        Seq::empty()
    } else {
        counter_lines(metric, label, rows.drop_last()) + counter_line(
            metric,
            label,
            rows.last().0,
            rows.last().1,
        )
    }
}

/// A counter metric with all its lines.
pub open spec fn counter_section(
    metric: Seq<char>,
    help: Seq<char>,
    label: Seq<char>,
    rows: Seq<(KeyText, u64)>,
) -> Seq<char> {
    header_text(metric, help, "counter"@) + counter_lines(metric, label, rows)
}

/// Appends a counter metric with all its lines.
fn push_counter_section(
    out: &mut String,
    metric: &str,
    help: &str,
    label: &str,
    counters: &Table<u64>,
)
    requires
        counters.wf(),
    ensures
        final(out)@ == old(out)@ + counter_section(metric@, help@, label@, counters.rows()),
{
    push_header(out, metric, help, "counter");
    let ghost start = out@;
    let ghost rows = counters.rows();
    let mut i: usize = 0;
    assert(rows.take(0) =~= Seq::empty());
    assert(out@ =~= start + counter_lines(metric@, label@, rows.take(0)));
    while i < counters.len()
        invariant
            counters.wf(),
            rows == counters.rows(),
            0 <= i <= rows.len(),
            out@ == start + counter_lines(metric@, label@, rows.take(i as int)),
        decreases rows.len() - i,
    {
        let ghost before = out@;
        let key = counters.key_at(i);
        let n: u64 = *counters.value_at(i);
        out.append(metric);
        out.append("{");
        let labels = series_labels_text(key, label);
        out.append(labels.as_str());
        out.append("} ");
        push_decimal(out, n);
        out.append("\n");
        proof {
            assert(out@ =~= before + counter_line(metric@, label@, key@, n));
            assert(rows.take(i + 1).drop_last() =~= rows.take(i as int));
            assert(rows.take(i + 1).last() == rows[i as int]);
            assert(out@ =~= start + counter_lines(metric@, label@, rows.take(i + 1)));
        }
        i = i + 1;
    }
    assert(rows.take(i as int) =~= rows);
    assert(out@ =~= old(out)@ + counter_section(metric@, help@, label@, rows));
}

/// The line of one latency bucket.
pub open spec fn bucket_line(base: Seq<char>, bound: Seq<char>, n: u64) -> Seq<char> {
    "razer_transaction_duration_seconds_bucket{"@ + base + ",le=\""@ + bound + "\"} "@ + decimal(
        n as nat,
    ) + "\n"@
}

/// Appends the line of one latency bucket.
fn push_bucket_line(out: &mut String, base: &str, bound: &str, n: u64)
    ensures
        final(out)@ == old(out)@ + bucket_line(base@, bound@, n),
{
    out.append("razer_transaction_duration_seconds_bucket{");
    out.append(base);
    out.append(",le=\"");
    out.append(bound);
    out.append("\"} ");
    push_decimal(out, n);
    out.append("\n");
    assert(out@ =~= old(out)@ + bucket_line(base@, bound@, n));
}

/// The lines of the first `n` latency buckets.
pub open spec fn bucket_lines(base: Seq<char>, histogram: Histogram, n: int) -> Seq<char>
    decreases n,
{
    if n <= 0 {
        Seq::empty()
    } else {
        bucket_lines(base, histogram, n - 1) + bucket_line(
            base,
            bucket_text(n - 1),
            histogram.counts@[n - 1],
        )
    }
}

/// The lines of one latency series.
pub open spec fn latency_line(key: KeyText, latency: Latency) -> Seq<char> {
    let base = series_labels(key, "command"@);
    bucket_lines(base, latency.histogram, BUCKETS as int) + bucket_line(
        base,
        "+Inf"@,
        latency.histogram.total,
    ) + "razer_transaction_duration_seconds_sum{"@ + base + "} "@ + latency.sum@
        + "\nrazer_transaction_duration_seconds_count{"@ + base + "} "@ + decimal(
        latency.histogram.total as nat,
    ) + "\n"@
}

/// Appends the lines of one latency series.
fn push_latency(out: &mut String, key: &SeriesKey, latency: &Latency)
    ensures
        final(out)@ == old(out)@ + latency_line(key@, *latency),
{
    let base = series_labels_text(key, "command");
    let ghost start = out@;
    let mut i: usize = 0;
    assert(out@ =~= start + bucket_lines(base@, latency.histogram, 0));
    while i < BUCKETS
        invariant
            0 <= i <= BUCKETS,
            out@ == start + bucket_lines(base@, latency.histogram, i as int),
        decreases BUCKETS - i,
    {
        push_bucket_line(out, base.as_str(), bucket_label(i), latency.histogram.counts[i]);
        assert(out@ =~= start + bucket_lines(base@, latency.histogram, i + 1));
        i = i + 1;
    }
    push_bucket_line(out, base.as_str(), "+Inf", latency.histogram.total);
    out.append("razer_transaction_duration_seconds_sum{");
    out.append(base.as_str());
    out.append("} ");
    out.append(latency.sum.as_str());
    out.append("\nrazer_transaction_duration_seconds_count{");
    out.append(base.as_str());
    out.append("} ");
    push_decimal(out, latency.histogram.total);
    out.append("\n");
    assert(out@ =~= start + latency_line(key@, *latency));
}

/// The lines of all latency series.
pub open spec fn latency_lines(rows: Seq<(KeyText, Latency)>) -> Seq<char>
    decreases rows.len(),
{
    if rows.len() == 0 {
        Seq::empty()
    } else {
        latency_lines(rows.drop_last()) + latency_line(rows.last().0, rows.last().1)
    }
}

/// The latency metric with all its lines.
pub open spec fn latency_section(rows: Seq<(KeyText, Latency)>) -> Seq<char> {
    header_text(
        "razer_transaction_duration_seconds"@,
        "LATENCY: HID feature-report round trip."@,
        "histogram"@,
    ) + latency_lines(rows)
}

/// Appends the latency metric with all its lines.
fn push_latency_section(out: &mut String, series: &Table<Latency>)
    requires
        series.wf(),
    ensures
        final(out)@ == old(out)@ + latency_section(series.rows()),
{
    push_header(
        out,
        "razer_transaction_duration_seconds",
        "LATENCY: HID feature-report round trip.",
        "histogram",
    );
    let ghost start = out@;
    let ghost rows = series.rows();
    let mut i: usize = 0;
    assert(rows.take(0) =~= Seq::empty());
    assert(out@ =~= start + latency_lines(rows.take(0)));
    while i < series.len()
        invariant
            series.wf(),
            rows == series.rows(),
            0 <= i <= rows.len(),
            out@ == start + latency_lines(rows.take(i as int)),
        decreases rows.len() - i,
    {
        push_latency(out, series.key_at(i), series.value_at(i));
        proof {
            assert(rows.take(i + 1).drop_last() =~= rows.take(i as int));
            assert(rows.take(i + 1).last() == rows[i as int]);
            assert(out@ =~= start + latency_lines(rows.take(i + 1)));
        }
        i = i + 1;
    }
    assert(rows.take(i as int) =~= rows);
    assert(out@ =~= old(out)@ + latency_section(rows));
}

/// A metric with one value and no labels.
pub open spec fn plain_section(
    metric: Seq<char>,
    help: Seq<char>,
    kind: Seq<char>,
    value: Seq<char>,
) -> Seq<char> {
    header_text(metric, help, kind) + metric + " "@ + value + "\n"@
}

/// Appends a metric with one value and no labels.
fn push_plain_section(out: &mut String, metric: &str, help: &str, kind: &str, value: &str)
    ensures
        final(out)@ == old(out)@ + plain_section(metric@, help@, kind@, value@),
{
    push_header(out, metric, help, kind);
    out.append(metric);
    out.append(" ");
    out.append(value);
    out.append("\n");
    assert(out@ =~= old(out)@ + plain_section(metric@, help@, kind@, value@));
}

/// Version and uptime.
pub open spec fn process_part(version: Seq<char>, uptime: Seq<char>) -> Seq<char> {
    header_text("razer_build_info"@, "Build information."@, "gauge"@)
        + "razer_build_info{version=\""@ + escaped(version) + "\"} 1\n"@ + plain_section(
        "razer_uptime_seconds"@,
        "Seconds since razerd started."@,
        "gauge"@,
        uptime,
    )
}

/// Device identity and health.
pub open spec fn devices_part(expose_serial: bool, rows: Seq<(KeyText, DeviceState)>) -> Seq<char> {
    device_section(DeviceMetric::Info, expose_serial, rows) + device_section(
        DeviceMetric::Present,
        expose_serial,
        rows,
    ) + device_section(DeviceMetric::UsbDevnum, expose_serial, rows) + device_section(
        DeviceMetric::KernelDriver,
        expose_serial,
        rows,
    ) + device_section(DeviceMetric::Mode, expose_serial, rows) + device_section(
        DeviceMetric::PollRate,
        expose_serial,
        rows,
    ) + device_section(DeviceMetric::Brightness, expose_serial, rows)
}

/// Traffic, saturation, errors and latency.
pub open spec fn signals_part(
    transactions: Seq<(KeyText, u64)>,
    attempts: Seq<(KeyText, u64)>,
    errors: Seq<(KeyText, u64)>,
    latency: Seq<(KeyText, Latency)>,
) -> Seq<char> {
    counter_section(
        "razer_transactions_total"@,
        "TRAFFIC: completed HID transactions."@,
        "command"@,
        transactions,
    ) + counter_section(
        "razer_transaction_attempts_total"@,
        "SATURATION: attempts consumed, including retries. attempts/transactions > 1 means the device is rejecting well-formed reports."@,
        "command"@,
        attempts,
    ) + counter_section(
        "razer_transaction_errors_total"@,
        "ERRORS: failed transactions by reason."@,
        "reason"@,
        errors,
    ) + latency_section(latency)
}

/// The exporter's own polling.
pub open spec fn polling_part(polls: u64, failures: u64, last: Seq<char>) -> Seq<char> {
    plain_section(
        "razer_polls_total"@,
        "Device poll cycles run."@,
        "counter"@,
        decimal(polls as nat),
    ) + plain_section(
        "razer_poll_failures_total"@,
        "Poll cycles that failed for at least one device."@,
        "counter"@,
        decimal(failures as nat),
    ) + plain_section(
        "razer_poll_duration_seconds"@,
        "Duration of the most recent poll cycle."@,
        "gauge"@,
        last,
    )
}

/// A number in decimal.
fn decimal_text(n: u64) -> (text: String)
    ensures
        text@ == decimal(n as nat),
{
    let mut out = String::new();
    push_decimal(&mut out, n);
    assert(out@ =~= decimal(n as nat));
    out
}

impl Metrics {
    /// The whole exposition.
    pub open spec fn exposition(&self, version: Seq<char>, uptime: Seq<char>) -> Seq<char> {
        process_part(version, uptime) + devices_part(self.exposes_serial(), self.devices())
            + signals_part(
            self.transactions(),
            self.attempts(),
            self.errors(),
            self.latency(),
        ) + polling_part(self.polls(), self.poll_failures(), self.last_poll_duration())
    }

    /// Render the exposition format.
    ///
    /// `uptime` is in seconds, as it is to be printed.
    #[must_use]
    pub fn render(&self, version: &str, uptime: &str) -> (text: String)
        requires
            self.wf(),
        ensures
            text@ == self.exposition(version@, uptime@),
    {
        let mut out = String::new();
        self.push_process_part(&mut out, version, uptime);
        self.push_devices_part(&mut out);
        self.push_signals_part(&mut out);
        self.push_polling_part(&mut out);
        assert(out@ =~= self.exposition(version@, uptime@));
        out
    }

    /// Appends version and uptime.
    fn push_process_part(&self, out: &mut String, version: &str, uptime: &str)
        ensures
            final(out)@ == old(out)@ + process_part(version@, uptime@),
    {
        push_header(out, "razer_build_info", "Build information.", "gauge");
        out.append("razer_build_info{version=\"");
        let v = escape(version);
        out.append(v.as_str());
        out.append("\"} 1\n");
        push_plain_section(
            out,
            "razer_uptime_seconds",
            "Seconds since razerd started.",
            "gauge",
            uptime,
        );
        assert(out@ =~= old(out)@ + process_part(version@, uptime@));
    }

    /// Appends device identity and health.
    fn push_devices_part(&self, out: &mut String)
        requires
            self.wf(),
        ensures
            final(out)@ == old(out)@ + devices_part(self.exposes_serial(), self.devices()),
    {
        let serial: bool = self.expose_serial;
        let mut part = String::new();
        push_device_section(&mut part, DeviceMetric::Info, serial, &self.devices);
        assert(part@ =~= device_section(DeviceMetric::Info, serial, self.devices.rows()));
        push_device_section(&mut part, DeviceMetric::Present, serial, &self.devices);
        push_device_section(&mut part, DeviceMetric::UsbDevnum, serial, &self.devices);
        push_device_section(&mut part, DeviceMetric::KernelDriver, serial, &self.devices);
        push_device_section(&mut part, DeviceMetric::Mode, serial, &self.devices);
        push_device_section(&mut part, DeviceMetric::PollRate, serial, &self.devices);
        push_device_section(&mut part, DeviceMetric::Brightness, serial, &self.devices);
        out.append(part.as_str());
    }

    /// Appends traffic, saturation, errors and latency.
    fn push_signals_part(&self, out: &mut String)
        requires
            self.wf(),
        ensures
            final(out)@ == old(out)@ + signals_part(
                self.transactions(),
                self.attempts(),
                self.errors(),
                self.latency(),
            ),
    {
        push_counter_section(
            out,
            "razer_transactions_total",
            "TRAFFIC: completed HID transactions.",
            "command",
            &self.transactions,
        );
        push_counter_section(
            out,
            "razer_transaction_attempts_total",
            "SATURATION: attempts consumed, including retries. attempts/transactions > 1 means the device is rejecting well-formed reports.",
            "command",
            &self.attempts,
        );
        push_counter_section(
            out,
            "razer_transaction_errors_total",
            "ERRORS: failed transactions by reason.",
            "reason",
            &self.errors,
        );
        push_latency_section(out, &self.latency);
        assert(out@ =~= old(out)@ + signals_part(
            self.transactions(),
            self.attempts(),
            self.errors(),
            self.latency(),
        ));
    }

    /// Appends the exporter's own polling.
    fn push_polling_part(&self, out: &mut String)
        ensures
            final(out)@ == old(out)@ + polling_part(
                self.polls(),
                self.poll_failures(),
                self.last_poll_duration(),
            ),
    {
        let polls = decimal_text(self.polls);
        push_plain_section(
            out,
            "razer_polls_total",
            "Device poll cycles run.",
            "counter",
            polls.as_str(),
        );
        let failures = decimal_text(self.poll_failures);
        push_plain_section(
            out,
            "razer_poll_failures_total",
            "Poll cycles that failed for at least one device.",
            "counter",
            failures.as_str(),
        );
        push_plain_section(
            out,
            "razer_poll_duration_seconds",
            "Duration of the most recent poll cycle.",
            "gauge",
            self.last_poll_duration.as_str(),
        );
        assert(out@ =~= old(out)@ + polling_part(
            self.polls(),
            self.poll_failures(),
            self.last_poll_duration(),
        ));
    }
}

// ---------------------------------------------------------------------------
// Laws
// ---------------------------------------------------------------------------

/// Two texts that are both there and the same, or both missing.
pub open spec fn same_text(a: Option<String>, b: Option<String>) -> bool {
    match (a, b) {
        (Some(x), Some(y)) => x@ == y@,
        (None, None) => true,
        _ => false,
    }
}

/// Two states that differ in nothing but the serial number.
pub open spec fn same_but_serial(a: DeviceState, b: DeviceState) -> bool {
    &&& a.present == b.present
    &&& a.usb_devnum == b.usb_devnum
    &&& same_text(a.kernel_driver, b.kernel_driver)
    &&& same_text(a.firmware, b.firmware)
    &&& a.device_mode == b.device_mode
    &&& a.poll_rate_hz == b.poll_rate_hz
    &&& a.brightness == b.brightness
    &&& a.transaction_id == b.transaction_id
}

/// Two latency series that hold the same.
pub open spec fn same_latency(a: Latency, b: Latency) -> bool {
    &&& a.histogram.counts@ == b.histogram.counts@
    &&& a.histogram.total == b.histogram.total
    &&& a.sum@ == b.sum@
}

/// Two registries that differ in nothing but the serial numbers of their
/// devices.
pub open spec fn registries_same_but_serials(a: Metrics, b: Metrics) -> bool {
    &&& a.devices().len() == b.devices().len()
    &&& forall|i: int|
        0 <= i < a.devices().len() ==> (#[trigger] a.devices()[i]).0 == b.devices()[i].0
            && same_but_serial(a.devices()[i].1, b.devices()[i].1)
    &&& a.transactions() == b.transactions()
    &&& a.attempts() == b.attempts()
    &&& a.errors() == b.errors()
    &&& a.latency().len() == b.latency().len()
    &&& forall|i: int|
        0 <= i < a.latency().len() ==> (#[trigger] a.latency()[i]).0 == b.latency()[i].0
            && same_latency(a.latency()[i].1, b.latency()[i].1)
    &&& a.polls() == b.polls()
    &&& a.poll_failures() == b.poll_failures()
    &&& a.last_poll_duration() == b.last_poll_duration()
}

/// A registry that does not expose serials renders the same text whatever the
/// serials are.
pub proof fn law_serials_stay_private(
    a: Metrics,
    b: Metrics,
    version: Seq<char>,
    uptime: Seq<char>,
)
    requires
        !a.exposes_serial(),
        !b.exposes_serial(),
        registries_same_but_serials(a, b),
    ensures
        a.exposition(version, uptime) == b.exposition(version, uptime),
{
    let x = a.devices();
    let y = b.devices();
    lemma_lines_without_serial(DeviceMetric::Info, x, y);
    lemma_lines_without_serial(DeviceMetric::Present, x, y);
    lemma_lines_without_serial(DeviceMetric::UsbDevnum, x, y);
    lemma_lines_without_serial(DeviceMetric::KernelDriver, x, y);
    lemma_lines_without_serial(DeviceMetric::Mode, x, y);
    lemma_lines_without_serial(DeviceMetric::PollRate, x, y);
    lemma_lines_without_serial(DeviceMetric::Brightness, x, y);
    lemma_same_latency_lines(a.latency(), b.latency());
}

/// Latency series that hold the same print the same.
proof fn lemma_same_latency_lines(a: Seq<(KeyText, Latency)>, b: Seq<(KeyText, Latency)>)
    requires
        a.len() == b.len(),
        forall|i: int|
            0 <= i < a.len() ==> (#[trigger] a[i]).0 == b[i].0 && same_latency(a[i].1, b[i].1),
    ensures
        latency_lines(a) == latency_lines(b),
    decreases a.len(),
{
    if a.len() > 0 {
        let n = a.len() - 1;
        assert(a[n].0 == b[n].0 && same_latency(a[n].1, b[n].1));
        assert forall|i: int| 0 <= i < n implies (#[trigger] a.drop_last()[i]).0
            == b.drop_last()[i].0 && same_latency(a.drop_last()[i].1, b.drop_last()[i].1) by {
            assert(a.drop_last()[i] == a[i]);
        }
        lemma_same_latency_lines(a.drop_last(), b.drop_last());
        lemma_same_bucket_lines(
            series_labels(a[n].0, "command"@),
            a[n].1.histogram,
            b[n].1.histogram,
            BUCKETS as int,
        );
    }
}

/// Buckets that hold the same print the same.
proof fn lemma_same_bucket_lines(base: Seq<char>, a: Histogram, b: Histogram, n: int)
    requires
        a.counts@ == b.counts@,
    ensures
        bucket_lines(base, a, n) == bucket_lines(base, b, n),
    decreases n,
{
    if n > 0 {
        lemma_same_bucket_lines(base, a, b, n - 1);
    }
}

/// The same for the lines of one metric.
proof fn lemma_lines_without_serial(
    metric: DeviceMetric,
    a: Seq<(KeyText, DeviceState)>,
    b: Seq<(KeyText, DeviceState)>,
)
    requires
        a.len() == b.len(),
        forall|i: int|
            0 <= i < a.len() ==> (#[trigger] a[i]).0 == b[i].0 && same_but_serial(a[i].1, b[i].1),
    ensures
        device_lines(metric, false, a) == device_lines(metric, false, b),
    decreases a.len(),
{
    if a.len() > 0 {
        let n = a.len() - 1;
        assert(a[n].0 == b[n].0 && same_but_serial(a[n].1, b[n].1));
        assert forall|i: int| 0 <= i < n implies (#[trigger] a.drop_last()[i]).0
            == b.drop_last()[i].0 && same_but_serial(a.drop_last()[i].1, b.drop_last()[i].1) by {
            assert(a.drop_last()[i] == a[i]);
        }
        lemma_lines_without_serial(metric, a.drop_last(), b.drop_last());
    }
}

}
