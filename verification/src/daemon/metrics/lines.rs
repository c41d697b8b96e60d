//! What lines an exposition holds.
use vstd::prelude::*;

use crate::daemon::metrics::exposition::{
    bucket_line, bucket_lines, counter_line, counter_lines, device_line,
    device_lines, device_section, devices_part, header_text, latency_line, latency_lines,
    latency_section, polling_part, process_part, ratio_text, signals_part,
    DeviceMetric,
};
use crate::daemon::metrics::{bucket_text, escaped, DeviceState, Latency, Metrics};
use crate::daemon::table::KeyText;
use crate::text::laws::{
    law_contained_means_cut_out, law_decimal_reads_back, law_numbers_are_read_exactly,
    law_padded_decimal_reads_back, lemma_contains_inside, numeral,
};
use crate::text::{contains, decimal, pad_left, upper_hex};

verus! {

// ---------------------------------------------------------------------------
// One device
// ---------------------------------------------------------------------------

/// A series of one device: the metric's name, the device's labels between
/// braces, and what follows them.
pub open spec fn series(metric: Seq<char>, key: KeyText, rest: Seq<char>) -> Seq<char> {
    metric + "{device=\""@ + escaped(key.device) + "\",pid=\""@ + escaped(key.pid) + "\""@ + rest
}

/// The labels between braces, put together.
proof fn lemma_series(metric: Seq<char>, key: KeyText, rest: Seq<char>)
    ensures
        metric + "{"@ + ("device=\""@ + escaped(key.device) + "\",pid=\""@ + escaped(key.pid)
            + "\""@) + rest == series(metric, key, rest),
{
    reveal_strlit("{");
    reveal_strlit("device=\"");
    reveal_strlit("{device=\"");
    assert("{"@ + "device=\""@ =~= "{device=\""@);
    assert(metric + "{"@ + ("device=\""@ + escaped(key.device) + "\",pid=\""@ + escaped(key.pid)
        + "\""@) + rest =~= metric + ("{"@ + "device=\""@) + escaped(key.device) + "\",pid=\""@
        + escaped(key.pid) + "\""@ + rest);
}

/// A device has a line for its operating mode exactly where the mode is known,
/// mode 0 included, and the line gives the mode in decimal.
pub proof fn law_the_mode_has_a_line_where_it_is_known(
    expose_serial: bool,
    key: KeyText,
    state: DeviceState,
)
    ensures
        state.device_mode is None <==> device_line(
            DeviceMetric::Mode,
            expose_serial,
            key,
            state,
        ).len() == 0,
        state.device_mode is Some ==> device_line(DeviceMetric::Mode, expose_serial, key, state)
            == series(
            "razer_device_mode"@,
            key,
            "} "@ + decimal(state.device_mode->0 as nat) + "\n"@,
        ),
{
    if state.device_mode is Some {
        lemma_series(
            "razer_device_mode"@,
            key,
            "} "@ + decimal(state.device_mode->0 as nat) + "\n"@,
        );
        reveal_strlit("razer_device_mode");
    }
}

/// A device has a line for its device number exactly where the number is known.
pub proof fn law_the_device_number_has_a_line_where_it_is_known(
    expose_serial: bool,
    key: KeyText,
    state: DeviceState,
)
    ensures
        state.usb_devnum is None <==> device_line(
            DeviceMetric::UsbDevnum,
            expose_serial,
            key,
            state,
        ).len() == 0,
        state.usb_devnum is Some ==> device_line(
            DeviceMetric::UsbDevnum,
            expose_serial,
            key,
            state,
        ) == series(
            "razer_device_usb_devnum"@,
            key,
            "} "@ + decimal(state.usb_devnum->0 as nat) + "\n"@,
        ),
{
    if state.usb_devnum is Some {
        lemma_series(
            "razer_device_usb_devnum"@,
            key,
            "} "@ + decimal(state.usb_devnum->0 as nat) + "\n"@,
        );
        reveal_strlit("razer_device_usb_devnum");
    }
}

/// A device has a line for its polling rate exactly where the rate is known.
pub proof fn law_the_poll_rate_has_a_line_where_it_is_known(
    expose_serial: bool,
    key: KeyText,
    state: DeviceState,
)
    ensures
        state.poll_rate_hz is None <==> device_line(
            DeviceMetric::PollRate,
            expose_serial,
            key,
            state,
        ).len() == 0,
        state.poll_rate_hz is Some ==> device_line(
            DeviceMetric::PollRate,
            expose_serial,
            key,
            state,
        ) == series(
            "razer_device_poll_rate_hz"@,
            key,
            "} "@ + decimal(state.poll_rate_hz->0 as nat) + "\n"@,
        ),
{
    if state.poll_rate_hz is Some {
        lemma_series(
            "razer_device_poll_rate_hz"@,
            key,
            "} "@ + decimal(state.poll_rate_hz->0 as nat) + "\n"@,
        );
        reveal_strlit("razer_device_poll_rate_hz");
    }
}

/// A device has a line for its brightness exactly where the brightness is known.
pub proof fn law_the_brightness_has_a_line_where_it_is_known(
    expose_serial: bool,
    key: KeyText,
    state: DeviceState,
)
    ensures
        state.brightness is None <==> device_line(
            DeviceMetric::Brightness,
            expose_serial,
            key,
            state,
        ).len() == 0,
        state.brightness is Some ==> device_line(
            DeviceMetric::Brightness,
            expose_serial,
            key,
            state,
        ) == series(
            "razer_device_brightness_ratio"@,
            key,
            "} "@ + ratio_text(state.brightness->0) + "\n"@,
        ),
{
    if state.brightness is Some {
        lemma_series(
            "razer_device_brightness_ratio"@,
            key,
            "} "@ + ratio_text(state.brightness->0) + "\n"@,
        );
        reveal_strlit("razer_device_brightness_ratio");
    }
}

/// The brightness is printed as one digit, a point and four digits, and the
/// number they make lies within half a ten-thousandth of a 255th of it.
pub proof fn law_the_ratio_is_close(b: u8)
    ensures
        ratio_text(b).len() == 6,
        ratio_text(b)[1] == '.',
        ({
            let q = numeral(ratio_text(b).take(1), 10) * 10000 + numeral(
                ratio_text(b).skip(2),
                10,
            );
            -255 < 2 * (q * 255 - b * 10000) < 255
        }),
{
    reveal_strlit(".");
    let q = (b * 20000 + 255) / 510;
    let whole = decimal((q / 10000) as nat);
    let part = pad_left(decimal((q % 10000) as nat), 4, '0');
    crate::daemon::metrics::exposition::law_ratio_is_rounded_to_nearest(b);
    law_padded_decimal_reads_back((q / 10000) as nat, 0, 10000);
    law_decimal_reads_back((q / 10000) as nat, 10000);
    law_padded_decimal_reads_back((q % 10000) as nat, 4, 10000);
    law_numbers_are_read_exactly(whole, 10, 10000);
    law_numbers_are_read_exactly(part, 10, 10000);
    assert(ratio_text(b).take(1) =~= whole);
    assert(ratio_text(b).skip(2) =~= part);
    assert(part[0] != '+') by {
        law_decimal_reads_back((q % 10000) as nat, 10000);
        if part[0] == '+' {
            let d = decimal((q % 10000) as nat);
            assert(part[0] == d[0] || part[0] == '0');
        }
    }
}

/// A device that is there has the value 1, and one that is not has 0: there is
/// always a line.
pub proof fn law_presence_is_always_told(expose_serial: bool, key: KeyText, state: DeviceState)
    ensures
        state.present ==> device_line(DeviceMetric::Present, expose_serial, key, state) == series(
            "razer_device_present"@,
            key,
            "} 1\n"@,
        ),
        !state.present ==> device_line(DeviceMetric::Present, expose_serial, key, state) == series(
            "razer_device_present"@,
            key,
            "} 0\n"@,
        ),
{
    lemma_series("razer_device_present"@, key, "} 1\n"@);
    lemma_series("razer_device_present"@, key, "} 0\n"@);
}

/// A device has a line for its kernel driver exactly where the driver is known,
/// and the line names it.
pub proof fn law_the_driver_has_a_line_where_it_is_known(
    expose_serial: bool,
    key: KeyText,
    state: DeviceState,
)
    ensures
        state.kernel_driver is None <==> device_line(
            DeviceMetric::KernelDriver,
            expose_serial,
            key,
            state,
        ).len() == 0,
        state.kernel_driver is Some ==> device_line(
            DeviceMetric::KernelDriver,
            expose_serial,
            key,
            state,
        ) == series(
            "razer_device_kernel_driver"@,
            key,
            ",driver=\""@ + escaped(state.kernel_driver->0@) + "\"} 1\n"@,
        ),
{
    if state.kernel_driver is Some {
        let name = escaped(state.kernel_driver->0@);
        let rest = ",driver=\""@ + name + "\"} 1\n"@;
        lemma_series("razer_device_kernel_driver"@, key, rest);
        reveal_strlit("razer_device_kernel_driver");
        lemma_label_pieces("driver"@, ",driver=\""@, name);
    }
}

/// The pieces of a label, put together.
proof fn lemma_label_pieces(name: Seq<char>, front: Seq<char>, value: Seq<char>)
    ensures
        (name == "driver"@ && front == ",driver=\""@) || (name == "firmware"@ && front
            == ",firmware=\""@) || (name == "serial"@ && front == ",serial=\""@) ==> ","@ + name
            + "=\""@ + value + "\""@ == front + value + "\""@,
        front + value + "\""@ + "} 1\n"@ == front + value + "\"} 1\n"@,
{
    reveal_strlit(",");
    reveal_strlit("=\"");
    reveal_strlit("\"");
    reveal_strlit("} 1\n");
    reveal_strlit("\"} 1\n");
    reveal_strlit("driver");
    reveal_strlit("firmware");
    reveal_strlit("serial");
    reveal_strlit(",driver=\"");
    reveal_strlit(",firmware=\"");
    reveal_strlit(",serial=\"");
    assert(","@ + "driver"@ + "=\""@ =~= ",driver=\""@);
    assert(","@ + "firmware"@ + "=\""@ =~= ",firmware=\""@);
    assert(","@ + "serial"@ + "=\""@ =~= ",serial=\""@);
    assert("\""@ + "} 1\n"@ =~= "\"} 1\n"@);
    assert(front + value + "\""@ + "} 1\n"@ =~= front + value + ("\""@ + "} 1\n"@));
}

/// Every device has an identity line. It gives the firmware version and the
/// transaction id where they are known, and the serial number where it is known
/// and serials are exposed, in that order.
pub proof fn law_the_identity_line(expose_serial: bool, key: KeyText, state: DeviceState)
    ensures
        device_line(DeviceMetric::Info, expose_serial, key, state) == series(
            "razer_device_info"@,
            key,
            (match state.firmware {
                Some(version) => ",firmware=\""@ + escaped(version@) + "\""@,
                None => Seq::empty(),
            }) + (match state.transaction_id {
                Some(tid) => ",transaction_id=\"0x"@ + upper_hex(tid as nat, 2) + "\""@,
                None => Seq::empty(),
            }) + (if expose_serial && state.serial is Some {
                ",serial=\""@ + escaped(state.serial->0@) + "\""@
            } else {
                Seq::empty()
            }) + "} 1\n"@,
        ),
{
    let rest = (match state.firmware {
        Some(version) => ",firmware=\""@ + escaped(version@) + "\""@,
        None => Seq::empty(),
    }) + (match state.transaction_id {
        Some(tid) => ",transaction_id=\"0x"@ + upper_hex(tid as nat, 2) + "\""@,
        None => Seq::empty(),
    }) + (if expose_serial && state.serial is Some {
        ",serial=\""@ + escaped(state.serial->0@) + "\""@
    } else {
        Seq::empty()
    }) + "} 1\n"@;
    lemma_series("razer_device_info"@, key, rest);
    if state.firmware is Some {
        lemma_label_pieces("firmware"@, ",firmware=\""@, escaped(state.firmware->0@));
    }
    if state.serial is Some {
        lemma_label_pieces("serial"@, ",serial=\""@, escaped(state.serial->0@));
    }
}

// ---------------------------------------------------------------------------
// One series
// ---------------------------------------------------------------------------

/// Every counter has a line with its labels and its value.
pub proof fn law_the_counter_line(metric: Seq<char>, label: Seq<char>, key: KeyText, n: u64)
    ensures
        counter_line(metric, label, key, n) == series(
            metric,
            key,
            ","@ + label + "=\""@ + escaped(key.name) + "\"} "@ + decimal(n as nat) + "\n"@,
        ),
{
    let rest = ","@ + label + "=\""@ + escaped(key.name) + "\"} "@ + decimal(n as nat) + "\n"@;
    lemma_series(metric, key, rest);
    reveal_strlit("\"");
    reveal_strlit("} ");
    reveal_strlit("\"} ");
    assert("\""@ + "} "@ =~= "\"} "@);
    assert(counter_line(metric, label, key, n) =~= metric + "{"@ + ("device=\""@ + escaped(
        key.device,
    ) + "\",pid=\""@ + escaped(key.pid) + "\""@) + (","@ + label + "=\""@ + escaped(key.name) + (
    "\""@ + "} "@) + decimal(n as nat) + "\n"@));
}

/// The labels of a latency series.
pub open spec fn latency_labels(key: KeyText) -> Seq<char> {
    "device=\""@ + escaped(key.device) + "\",pid=\""@ + escaped(key.pid) + "\",command=\""@
        + escaped(key.name) + "\""@
}

/// A latency series prints each of its eleven buckets with its own bound and
/// count, the unbounded bucket and the count with the number of latencies, and
/// the sum.
pub proof fn law_the_latency_lines(key: KeyText, latency: Latency, i: int)
    requires
        0 <= i < 11,
    ensures
        contains(
            latency_line(key, latency),
            "razer_transaction_duration_seconds_bucket{"@ + latency_labels(key) + ",le=\""@
                + bucket_text(i) + "\"} "@ + decimal(latency.histogram.counts@[i] as nat) + "\n"@,
        ),
        contains(
            latency_line(key, latency),
            "razer_transaction_duration_seconds_bucket{"@ + latency_labels(key) + ",le=\""@
                + "+Inf"@ + "\"} "@ + decimal(latency.histogram.total as nat) + "\n"@,
        ),
        contains(
            latency_line(key, latency),
            "razer_transaction_duration_seconds_sum{"@ + latency_labels(key) + "} "@
                + latency.sum@ + "\n"@,
        ),
        contains(
            latency_line(key, latency),
            "razer_transaction_duration_seconds_count{"@ + latency_labels(key) + "} "@ + decimal(
                latency.histogram.total as nat,
            ) + "\n"@,
        ),
{
    let base = latency_labels(key);
    lemma_latency_labels(key);
    let buckets = bucket_lines(base, latency.histogram, 11);
    let inf = bucket_line(base, "+Inf"@, latency.histogram.total);
    let n = decimal(latency.histogram.total as nat);
    lemma_bucket_line_is_there(base, latency, 11, i);
    lemma_latency_pieces(
        buckets,
        inf,
        base,
        latency.sum@,
        n,
        bucket_line(base, bucket_text(i), latency.histogram.counts@[i]),
    );
}

/// The pieces of the lines of a latency series.
proof fn lemma_latency_pieces(
    buckets: Seq<char>,
    inf: Seq<char>,
    base: Seq<char>,
    sum: Seq<char>,
    n: Seq<char>,
    bucket: Seq<char>,
)
    requires
        contains(buckets, bucket),
    ensures
        ({
            let line = buckets + inf + "razer_transaction_duration_seconds_sum{"@ + base + "} "@
                + sum + "\nrazer_transaction_duration_seconds_count{"@ + base + "} "@ + n + "\n"@;
            &&& contains(line, bucket)
            &&& contains(line, inf)
            &&& contains(
                line,
                "razer_transaction_duration_seconds_sum{"@ + base + "} "@ + sum + "\n"@,
            )
            &&& contains(
                line,
                "razer_transaction_duration_seconds_count{"@ + base + "} "@ + n + "\n"@,
            )
        }),
{
    let line = buckets + inf + "razer_transaction_duration_seconds_sum{"@ + base + "} "@ + sum
        + "\nrazer_transaction_duration_seconds_count{"@ + base + "} "@ + n + "\n"@;
    let sums = "razer_transaction_duration_seconds_sum{"@ + base + "} "@ + sum + "\n"@;
    let counts = "razer_transaction_duration_seconds_count{"@ + base + "} "@ + n + "\n"@;
    assert("\nrazer_transaction_duration_seconds_count{"@ =~= "\n"@
        + "razer_transaction_duration_seconds_count{"@) by {
        reveal_strlit("\n");
        reveal_strlit("\nrazer_transaction_duration_seconds_count{");
        reveal_strlit("razer_transaction_duration_seconds_count{");
    }
    assert(line =~= buckets + inf + sums + counts);
    assert(line =~= Seq::<char>::empty() + buckets + (inf + sums + counts));
    lemma_contains_inside(Seq::empty(), buckets, inf + sums + counts, bucket);
    assert(line =~= buckets + inf + (sums + counts));
    law_contained_means_cut_out(buckets, inf, sums + counts);
    law_contained_means_cut_out(buckets + inf, sums, counts);
    assert(line =~= (buckets + inf + sums) + counts + Seq::<char>::empty());
    law_contained_means_cut_out(buckets + inf + sums, counts, Seq::empty());
}

/// The labels of a latency series, put together.
proof fn lemma_latency_labels(key: KeyText)
    ensures
        crate::daemon::metrics::exposition::series_labels(key, "command"@) == latency_labels(key),
{
    reveal_strlit("\"");
    reveal_strlit(",");
    reveal_strlit("command");
    reveal_strlit("=\"");
    reveal_strlit("\",command=\"");
    assert("\""@ + ","@ + "command"@ + "=\""@ =~= "\",command=\""@);
    let front = "device=\""@ + escaped(key.device) + "\",pid=\""@ + escaped(key.pid);
    assert(crate::daemon::metrics::exposition::series_labels(key, "command"@) =~= front + ("\""@
        + ","@ + "command"@ + "=\""@) + escaped(key.name) + "\""@);
}

/// The line of a bucket among those of the first `n`.
proof fn lemma_bucket_line_is_there(base: Seq<char>, latency: Latency, n: int, i: int)
    requires
        0 <= i < n,
    ensures
        contains(
            bucket_lines(base, latency.histogram, n),
            bucket_line(base, bucket_text(i), latency.histogram.counts@[i]),
        ),
    decreases n,
{
    let line = bucket_line(base, bucket_text(i), latency.histogram.counts@[i]);
    let front = bucket_lines(base, latency.histogram, n - 1);
    let last = bucket_line(base, bucket_text(n - 1), latency.histogram.counts@[n - 1]);
    assert(bucket_lines(base, latency.histogram, n) =~= Seq::<char>::empty() + front + last);
    assert(bucket_lines(base, latency.histogram, n) =~= front + last + Seq::<char>::empty());
    if i < n - 1 {
        lemma_bucket_line_is_there(base, latency, n - 1, i);
        lemma_contains_inside(Seq::empty(), front, last, line);
    } else {
        law_contained_means_cut_out(front, last, Seq::empty());
    }
}

// ---------------------------------------------------------------------------
// All rows
// ---------------------------------------------------------------------------

/// Rows print one after another: what two runs of rows print together is what
/// they print apart, and one row prints its own line.
pub proof fn law_device_rows_print_one_after_another(
    metric: DeviceMetric,
    expose_serial: bool,
    a: Seq<(KeyText, DeviceState)>,
    b: Seq<(KeyText, DeviceState)>,
    row: (KeyText, DeviceState),
)
    ensures
        device_lines(metric, expose_serial, a + b) == device_lines(metric, expose_serial, a)
            + device_lines(metric, expose_serial, b),
        device_lines(metric, expose_serial, seq![row]) == device_line(
            metric,
            expose_serial,
            row.0,
            row.1,
        ),
        device_lines(metric, expose_serial, Seq::empty()) == Seq::<char>::empty(),
    decreases b.len(),
{
    reveal_with_fuel(device_lines, 2);
    assert(seq![row].drop_last() =~= Seq::empty());
    assert(device_lines(metric, expose_serial, seq![row]) =~= device_line(
        metric,
        expose_serial,
        row.0,
        row.1,
    ));
    if b.len() > 0 {
        assert((a + b).drop_last() =~= a + b.drop_last());
        assert((a + b).last() == b.last());
        law_device_rows_print_one_after_another(metric, expose_serial, a, b.drop_last(), row);
    } else {
        assert(a + b =~= a);
    }
    assert(device_lines(metric, expose_serial, a + b) =~= device_lines(metric, expose_serial, a)
        + device_lines(metric, expose_serial, b));
}

/// The same of counters.
pub proof fn law_counter_rows_print_one_after_another(
    metric: Seq<char>,
    label: Seq<char>,
    a: Seq<(KeyText, u64)>,
    b: Seq<(KeyText, u64)>,
    row: (KeyText, u64),
)
    ensures
        counter_lines(metric, label, a + b) == counter_lines(metric, label, a) + counter_lines(
            metric,
            label,
            b,
        ),
        counter_lines(metric, label, seq![row]) == counter_line(metric, label, row.0, row.1),
        counter_lines(metric, label, Seq::empty()) == Seq::<char>::empty(),
    decreases b.len(),
{
    reveal_with_fuel(counter_lines, 2);
    assert(seq![row].drop_last() =~= Seq::empty());
    assert(counter_lines(metric, label, seq![row]) =~= counter_line(metric, label, row.0, row.1));
    if b.len() > 0 {
        assert((a + b).drop_last() =~= a + b.drop_last());
        assert((a + b).last() == b.last());
        law_counter_rows_print_one_after_another(metric, label, a, b.drop_last(), row);
    } else {
        assert(a + b =~= a);
    }
    assert(counter_lines(metric, label, a + b) =~= counter_lines(metric, label, a)
        + counter_lines(metric, label, b));
}

/// The same of latencies.
pub proof fn law_latency_rows_print_one_after_another(
    a: Seq<(KeyText, Latency)>,
    b: Seq<(KeyText, Latency)>,
    row: (KeyText, Latency),
)
    ensures
        latency_lines(a + b) == latency_lines(a) + latency_lines(b),
        latency_lines(seq![row]) == latency_line(row.0, row.1),
        latency_lines(Seq::empty()) == Seq::<char>::empty(),
    decreases b.len(),
{
    assert(seq![row].drop_last() =~= Seq::empty());
    assert(latency_lines(Seq::empty()) =~= Seq::<char>::empty());
    lemma_nothing_more(latency_line(row.0, row.1));
    if b.len() > 0 {
        assert((a + b).drop_last() =~= a + b.drop_last());
        assert((a + b).last() == b.last());
        law_latency_rows_print_one_after_another(a, b.drop_last(), row);
        lemma_regroup(
            latency_lines(a),
            latency_lines(b.drop_last()),
            latency_line(b.last().0, b.last().1),
        );
    } else {
        assert(a + b =~= a);
        assert(b =~= Seq::empty());
        lemma_nothing_more(latency_lines(a));
    }
}

/// Texts can be put together in either grouping.
proof fn lemma_regroup(a: Seq<char>, b: Seq<char>, c: Seq<char>)
    ensures
        a + (b + c) == (a + b) + c,
{
    assert(a + (b + c) =~= (a + b) + c);
}

/// Nothing before or after a text leaves it as it is.
proof fn lemma_nothing_more(a: Seq<char>)
    ensures
        Seq::<char>::empty() + a == a,
        a + Seq::<char>::empty() == a,
{
    assert(Seq::<char>::empty() + a =~= a);
    assert(a + Seq::<char>::empty() =~= a);
}

/// Seven texts in a row, cut around each.
proof fn lemma_cut_seven(
    a: Seq<char>,
    b: Seq<char>,
    c: Seq<char>,
    d: Seq<char>,
    e: Seq<char>,
    f: Seq<char>,
    g: Seq<char>,
)
    ensures
        a + b + c + d + e + f + g == Seq::<char>::empty() + a + (b + c + d + e + f + g),
        a + b + c + d + e + f + g == a + b + (c + d + e + f + g),
        a + b + c + d + e + f + g == a + b + c + (d + e + f + g),
        a + b + c + d + e + f + g == a + b + c + d + (e + f + g),
        a + b + c + d + e + f + g == a + b + c + d + e + (f + g),
        a + b + c + d + e + f + g == a + b + c + d + e + f + g + Seq::<char>::empty(),
{
    let whole = a + b + c + d + e + f + g;
    assert(whole =~= Seq::<char>::empty() + a + (b + c + d + e + f + g));
    assert(whole =~= a + b + (c + d + e + f + g));
    assert(whole =~= a + b + c + (d + e + f + g));
    assert(whole =~= a + b + c + d + (e + f + g));
    assert(whole =~= a + b + c + d + e + (f + g));
    assert(whole =~= whole + Seq::<char>::empty());
}

/// The line of a row is among those of all rows.
proof fn lemma_device_line_is_there(
    metric: DeviceMetric,
    expose_serial: bool,
    rows: Seq<(KeyText, DeviceState)>,
    i: int,
)
    requires
        0 <= i < rows.len(),
    ensures
        contains(
            device_lines(metric, expose_serial, rows),
            device_line(metric, expose_serial, rows[i].0, rows[i].1),
        ),
{
    let line = device_line(metric, expose_serial, rows[i].0, rows[i].1);
    let front = rows.take(i);
    let back = rows.skip(i + 1);
    assert(rows =~= (front + seq![rows[i]]) + back);
    law_device_rows_print_one_after_another(
        metric,
        expose_serial,
        front + seq![rows[i]],
        back,
        rows[i],
    );
    law_device_rows_print_one_after_another(
        metric,
        expose_serial,
        front,
        seq![rows[i]],
        rows[i],
    );
    law_contained_means_cut_out(
        device_lines(metric, expose_serial, front),
        line,
        device_lines(metric, expose_serial, back),
    );
}

/// The line of a counter is among those of all.
proof fn lemma_counter_line_is_there(
    metric: Seq<char>,
    label: Seq<char>,
    rows: Seq<(KeyText, u64)>,
    i: int,
)
    requires
        0 <= i < rows.len(),
    ensures
        contains(
            counter_lines(metric, label, rows),
            counter_line(metric, label, rows[i].0, rows[i].1),
        ),
{
    let front = rows.take(i);
    let back = rows.skip(i + 1);
    assert(rows =~= (front + seq![rows[i]]) + back);
    law_counter_rows_print_one_after_another(metric, label, front + seq![rows[i]], back, rows[i]);
    law_counter_rows_print_one_after_another(metric, label, front, seq![rows[i]], rows[i]);
    law_contained_means_cut_out(
        counter_lines(metric, label, front),
        counter_line(metric, label, rows[i].0, rows[i].1),
        counter_lines(metric, label, back),
    );
}

/// The lines of a latency series are among those of all.
proof fn lemma_latency_line_is_there(rows: Seq<(KeyText, Latency)>, i: int)
    requires
        0 <= i < rows.len(),
    ensures
        contains(latency_lines(rows), latency_line(rows[i].0, rows[i].1)),
{
    let front = rows.take(i);
    let back = rows.skip(i + 1);
    assert(rows =~= (front + seq![rows[i]]) + back);
    law_latency_rows_print_one_after_another(front + seq![rows[i]], back, rows[i]);
    law_latency_rows_print_one_after_another(front, seq![rows[i]], rows[i]);
    law_contained_means_cut_out(
        latency_lines(front),
        latency_line(rows[i].0, rows[i].1),
        latency_lines(back),
    );
}

// ---------------------------------------------------------------------------
// The whole exposition
// ---------------------------------------------------------------------------

/// The comment lines give the metric's name, help and kind.
pub proof fn law_the_header(name: Seq<char>, help: Seq<char>, kind: Seq<char>)
    ensures
        header_text(name, help, kind) == ("# HELP "@ + name + " "@ + help + "\n"@) + ("# TYPE "@
            + name + " "@ + kind + "\n"@),
{
    reveal_strlit("\n");
    reveal_strlit("# TYPE ");
    reveal_strlit("\n# TYPE ");
    assert("\n# TYPE "@ =~= "\n"@ + "# TYPE "@);
    assert(header_text(name, help, kind) =~= "# HELP "@ + name + " "@ + help + ("\n"@
        + "# TYPE "@) + name + " "@ + kind + "\n"@);
    assert(header_text(name, help, kind) =~= ("# HELP "@ + name + " "@ + help + "\n"@) + (
    "# TYPE "@ + name + " "@ + kind + "\n"@));
}

/// What a section of the device metrics holds, the exposition holds.
proof fn lemma_in_devices_part(
    metrics: Metrics,
    version: Seq<char>,
    uptime: Seq<char>,
    metric: DeviceMetric,
    needle: Seq<char>,
)
    requires
        contains(device_lines(metric, metrics.exposes_serial(), metrics.devices()), needle),
    ensures
        contains(metrics.exposition(version, uptime), needle),
{
    let s = metrics.exposes_serial();
    let rows = metrics.devices();
    let front = process_part(version, uptime);
    let back = signals_part(
        metrics.transactions(),
        metrics.attempts(),
        metrics.errors(),
        metrics.latency(),
    ) + polling_part(metrics.polls(), metrics.poll_failures(), metrics.last_poll_duration());
    let a = device_section(DeviceMetric::Info, s, rows);
    let b = device_section(DeviceMetric::Present, s, rows);
    let c = device_section(DeviceMetric::UsbDevnum, s, rows);
    let d = device_section(DeviceMetric::KernelDriver, s, rows);
    let e = device_section(DeviceMetric::Mode, s, rows);
    let f = device_section(DeviceMetric::PollRate, s, rows);
    let g = device_section(DeviceMetric::Brightness, s, rows);
    let none = Seq::<char>::empty();
    let (before, after) = match metric {
        DeviceMetric::Info => (none, b + c + d + e + f + g),
        DeviceMetric::Present => (a, c + d + e + f + g),
        DeviceMetric::UsbDevnum => (a + b, d + e + f + g),
        DeviceMetric::KernelDriver => (a + b + c, e + f + g),
        DeviceMetric::Mode => (a + b + c + d, f + g),
        DeviceMetric::PollRate => (a + b + c + d + e, g),
        DeviceMetric::Brightness => (a + b + c + d + e + f, none),
    };
    let section = device_section(metric, s, rows);
    let header = header_text(metric.name(), metric.help(), "gauge"@);
    lemma_nothing_more(section);
    lemma_contains_inside(header, device_lines(metric, s, rows), none, needle);
    lemma_cut_seven(a, b, c, d, e, f, g);
    lemma_contains_inside(before, section, after, needle);
    lemma_regroup(
        front + devices_part(s, rows),
        signals_part(
            metrics.transactions(),
            metrics.attempts(),
            metrics.errors(),
            metrics.latency(),
        ),
        polling_part(metrics.polls(), metrics.poll_failures(), metrics.last_poll_duration()),
    );
    lemma_contains_inside(front, devices_part(s, rows), back, needle);
}

/// What the signals hold, the exposition holds.
proof fn lemma_in_signals_part(
    metrics: Metrics,
    version: Seq<char>,
    uptime: Seq<char>,
    before: Seq<char>,
    lines: Seq<char>,
    after: Seq<char>,
    needle: Seq<char>,
)
    requires
        signals_part(
            metrics.transactions(),
            metrics.attempts(),
            metrics.errors(),
            metrics.latency(),
        ) == before + lines + after,
        contains(lines, needle),
    ensures
        contains(metrics.exposition(version, uptime), needle),
{
    let part = before + lines + after;
    lemma_contains_inside(before, lines, after, needle);
    let front = process_part(version, uptime) + devices_part(
        metrics.exposes_serial(),
        metrics.devices(),
    );
    let back = polling_part(
        metrics.polls(),
        metrics.poll_failures(),
        metrics.last_poll_duration(),
    );
    assert(metrics.exposition(version, uptime) =~= front + part + back);
    lemma_contains_inside(front, part, back, needle);
}

impl Metrics {
    /// For every device whose operating mode is known, whatever it is, the
    /// exposition holds the line that gives it.
    pub proof fn law_every_known_mode_is_exposed(
        self,
        version: Seq<char>,
        uptime: Seq<char>,
        i: int,
    )
        requires
            0 <= i < self.devices().len(),
            self.devices()[i].1.device_mode is Some,
        ensures
            contains(
                self.exposition(version, uptime),
                series(
                    "razer_device_mode"@,
                    self.devices()[i].0,
                    "} "@ + decimal(self.devices()[i].1.device_mode->0 as nat) + "\n"@,
                ),
            ),
    {
        let (key, state) = self.devices()[i];
        let s = self.exposes_serial();
        law_the_mode_has_a_line_where_it_is_known(s, key, state);
        lemma_device_line_is_there(DeviceMetric::Mode, s, self.devices(), i);
        lemma_in_devices_part(
            self,
            version,
            uptime,
            DeviceMetric::Mode,
            device_line(DeviceMetric::Mode, s, key, state),
        );
    }

    /// For every device the exposition holds its presence and its identity, and
    /// each other value that is known.
    pub proof fn law_every_known_value_is_exposed(
        self,
        version: Seq<char>,
        uptime: Seq<char>,
        i: int,
    )
        requires
            0 <= i < self.devices().len(),
        ensures
            ({
                let (key, state) = self.devices()[i];
                let text = self.exposition(version, uptime);
                &&& contains(
                    text,
                    series(
                        "razer_device_present"@,
                        key,
                        if state.present {
                            "} 1\n"@
                        } else {
                            "} 0\n"@
                        },
                    ),
                )
                &&& state.usb_devnum is Some ==> contains(
                    text,
                    series(
                        "razer_device_usb_devnum"@,
                        key,
                        "} "@ + decimal(state.usb_devnum->0 as nat) + "\n"@,
                    ),
                )
                &&& state.kernel_driver is Some ==> contains(
                    text,
                    series(
                        "razer_device_kernel_driver"@,
                        key,
                        ",driver=\""@ + escaped(state.kernel_driver->0@) + "\"} 1\n"@,
                    ),
                )
                &&& state.poll_rate_hz is Some ==> contains(
                    text,
                    series(
                        "razer_device_poll_rate_hz"@,
                        key,
                        "} "@ + decimal(state.poll_rate_hz->0 as nat) + "\n"@,
                    ),
                )
                &&& state.brightness is Some ==> contains(
                    text,
                    series(
                        "razer_device_brightness_ratio"@,
                        key,
                        "} "@ + ratio_text(state.brightness->0) + "\n"@,
                    ),
                )
                &&& contains(
                    text,
                    device_line(DeviceMetric::Info, self.exposes_serial(), key, state),
                )
            }),
    {
        let (key, state) = self.devices()[i];
        let s = self.exposes_serial();
        law_presence_is_always_told(s, key, state);
        law_the_device_number_has_a_line_where_it_is_known(s, key, state);
        law_the_driver_has_a_line_where_it_is_known(s, key, state);
        law_the_poll_rate_has_a_line_where_it_is_known(s, key, state);
        law_the_brightness_has_a_line_where_it_is_known(s, key, state);
        self.lemma_device_line_is_exposed(version, uptime, DeviceMetric::Info, i);
        self.lemma_device_line_is_exposed(version, uptime, DeviceMetric::Present, i);
        self.lemma_device_line_is_exposed(version, uptime, DeviceMetric::UsbDevnum, i);
        self.lemma_device_line_is_exposed(version, uptime, DeviceMetric::KernelDriver, i);
        self.lemma_device_line_is_exposed(version, uptime, DeviceMetric::PollRate, i);
        self.lemma_device_line_is_exposed(version, uptime, DeviceMetric::Brightness, i);
    }

    /// The line of a device is in the exposition.
    proof fn lemma_device_line_is_exposed(
        self,
        version: Seq<char>,
        uptime: Seq<char>,
        metric: DeviceMetric,
        i: int,
    )
        requires
            0 <= i < self.devices().len(),
        ensures
            contains(
                self.exposition(version, uptime),
                device_line(
                    metric,
                    self.exposes_serial(),
                    self.devices()[i].0,
                    self.devices()[i].1,
                ),
            ),
    {
        let (key, state) = self.devices()[i];
        let s = self.exposes_serial();
        lemma_device_line_is_there(metric, s, self.devices(), i);
        lemma_in_devices_part(self, version, uptime, metric, device_line(metric, s, key, state));
    }

    /// Every series of transactions, attempts and errors is in the exposition
    /// with its count.
    #[verifier::rlimit(40)]
    #[verifier::spinoff_prover]
    pub proof fn law_every_count_is_exposed(self, version: Seq<char>, uptime: Seq<char>, i: int)
        ensures
            0 <= i < self.transactions().len() ==> contains(
                self.exposition(version, uptime),
                series(
                    "razer_transactions_total"@,
                    self.transactions()[i].0,
                    ","@ + "command"@ + "=\""@ + escaped(self.transactions()[i].0.name) + "\"} "@
                        + decimal(self.transactions()[i].1 as nat) + "\n"@,
                ),
            ),
            0 <= i < self.attempts().len() ==> contains(
                self.exposition(version, uptime),
                series(
                    "razer_transaction_attempts_total"@,
                    self.attempts()[i].0,
                    ","@ + "command"@ + "=\""@ + escaped(self.attempts()[i].0.name) + "\"} "@
                        + decimal(self.attempts()[i].1 as nat) + "\n"@,
                ),
            ),
            0 <= i < self.errors().len() ==> contains(
                self.exposition(version, uptime),
                series(
                    "razer_transaction_errors_total"@,
                    self.errors()[i].0,
                    ","@ + "reason"@ + "=\""@ + escaped(self.errors()[i].0.name) + "\"} "@
                        + decimal(self.errors()[i].1 as nat) + "\n"@,
                ),
            ),
    {
        let (ha, hb, hc) = self.lemma_signals_cut();
        let a = counter_lines("razer_transactions_total"@, "command"@, self.transactions());
        let b = counter_lines("razer_transaction_attempts_total"@, "command"@, self.attempts());
        let c = counter_lines("razer_transaction_errors_total"@, "reason"@, self.errors());
        let d = latency_section(self.latency());
        lemma_cut_seven(ha, a, hb, b, hc, c, d);
        if 0 <= i < self.transactions().len() {
            let (key, n) = self.transactions()[i];
            law_the_counter_line("razer_transactions_total"@, "command"@, key, n);
            lemma_counter_line_is_there(
                "razer_transactions_total"@,
                "command"@,
                self.transactions(),
                i,
            );
            lemma_in_signals_part(
                self,
                version,
                uptime,
                ha,
                a,
                hb + b + hc + c + d,
                counter_line("razer_transactions_total"@, "command"@, key, n),
            );
        }
        if 0 <= i < self.attempts().len() {
            let (key, n) = self.attempts()[i];
            law_the_counter_line("razer_transaction_attempts_total"@, "command"@, key, n);
            lemma_counter_line_is_there(
                "razer_transaction_attempts_total"@,
                "command"@,
                self.attempts(),
                i,
            );
            lemma_in_signals_part(
                self,
                version,
                uptime,
                ha + a + hb,
                b,
                hc + c + d,
                counter_line("razer_transaction_attempts_total"@, "command"@, key, n),
            );
        }
        if 0 <= i < self.errors().len() {
            let (key, n) = self.errors()[i];
            law_the_counter_line("razer_transaction_errors_total"@, "reason"@, key, n);
            lemma_counter_line_is_there(
                "razer_transaction_errors_total"@,
                "reason"@,
                self.errors(),
                i,
            );
            lemma_in_signals_part(
                self,
                version,
                uptime,
                ha + a + hb + b + hc,
                c,
                d,
                counter_line("razer_transaction_errors_total"@, "reason"@, key, n),
            );
        }
    }

    /// The signals, cut into headers and lines.
    proof fn lemma_signals_cut(self) -> (headers: (Seq<char>, Seq<char>, Seq<char>))
        ensures
            signals_part(self.transactions(), self.attempts(), self.errors(), self.latency())
                == headers.0 + counter_lines(
                "razer_transactions_total"@,
                "command"@,
                self.transactions(),
            ) + headers.1 + counter_lines(
                "razer_transaction_attempts_total"@,
                "command"@,
                self.attempts(),
            ) + headers.2 + counter_lines(
                "razer_transaction_errors_total"@,
                "reason"@,
                self.errors(),
            ) + latency_section(self.latency()),
    {
        let ha = header_text(
            "razer_transactions_total"@,
            "TRAFFIC: completed HID transactions."@,
            "counter"@,
        );
        let hb = header_text(
            "razer_transaction_attempts_total"@,
            "SATURATION: attempts consumed, including retries. attempts/transactions > 1 means the device is rejecting well-formed reports."@,
            "counter"@,
        );
        let hc = header_text(
            "razer_transaction_errors_total"@,
            "ERRORS: failed transactions by reason."@,
            "counter"@,
        );
        assert(signals_part(self.transactions(), self.attempts(), self.errors(), self.latency())
            =~= ha + counter_lines("razer_transactions_total"@, "command"@, self.transactions())
            + hb + counter_lines("razer_transaction_attempts_total"@, "command"@, self.attempts())
            + hc + counter_lines("razer_transaction_errors_total"@, "reason"@, self.errors())
            + latency_section(self.latency()));
        (ha, hb, hc)
    }

    /// Every latency series is in the exposition.
    pub proof fn law_every_latency_is_exposed(self, version: Seq<char>, uptime: Seq<char>, i: int)
        requires
            0 <= i < self.latency().len(),
        ensures
            contains(
                self.exposition(version, uptime),
                latency_line(self.latency()[i].0, self.latency()[i].1),
            ),
    {
        let (ha, hb, hc) = self.lemma_signals_cut();
        let front = ha + counter_lines(
            "razer_transactions_total"@,
            "command"@,
            self.transactions(),
        ) + hb + counter_lines("razer_transaction_attempts_total"@, "command"@, self.attempts())
            + hc + counter_lines("razer_transaction_errors_total"@, "reason"@, self.errors());
        let header = header_text(
            "razer_transaction_duration_seconds"@,
            "LATENCY: HID feature-report round trip."@,
            "histogram"@,
        );
        let lines = latency_lines(self.latency());
        lemma_latency_line_is_there(self.latency(), i);
        assert(front + latency_section(self.latency()) =~= (front + header) + lines + Seq::<
            char,
        >::empty());
        lemma_in_signals_part(
            self,
            version,
            uptime,
            front + header,
            lines,
            Seq::empty(),
            latency_line(self.latency()[i].0, self.latency()[i].1),
        );
    }

    /// The exposition is the version, the uptime, the seven device metrics, the
    /// three counters, the latencies and the three values of the poller, each
    /// under its own header, and nothing else.
    #[verifier::rlimit(40)]
    #[verifier::spinoff_prover]
    pub proof fn law_the_exposition_holds_nothing_else(
        self,
        version: Seq<char>,
        uptime: Seq<char>,
    )
        ensures
            self.exposition(version, uptime) == (header_text(
                "razer_build_info"@,
                "Build information."@,
                "gauge"@,
            ) + "razer_build_info{version=\""@ + escaped(version) + "\"} 1\n"@ + (header_text(
                "razer_uptime_seconds"@,
                "Seconds since razerd started."@,
                "gauge"@,
            ) + "razer_uptime_seconds"@ + " "@ + uptime + "\n"@)) + self.device_metrics()
                + self.signal_metrics() + ((header_text(
                "razer_polls_total"@,
                "Device poll cycles run."@,
                "counter"@,
            ) + "razer_polls_total"@ + " "@ + decimal(self.polls() as nat) + "\n"@) + (header_text(
                "razer_poll_failures_total"@,
                "Poll cycles that failed for at least one device."@,
                "counter"@,
            ) + "razer_poll_failures_total"@ + " "@ + decimal(self.poll_failures() as nat)
                + "\n"@) + (header_text(
                "razer_poll_duration_seconds"@,
                "Duration of the most recent poll cycle."@,
                "gauge"@,
            ) + "razer_poll_duration_seconds"@ + " "@ + self.last_poll_duration() + "\n"@)),
    {
    }

    /// The seven device metrics.
    pub open spec fn device_metrics(self) -> Seq<char> {
        let s = self.exposes_serial();
        let rows = self.devices();
        (header_text(
            "razer_device_info"@,
            "Device identity. Serial is only present when --expose-serial is set."@,
            "gauge"@,
        ) + device_lines(DeviceMetric::Info, s, rows)) + (header_text(
            "razer_device_present"@,
            "1 if the device is currently enumerated."@,
            "gauge"@,
        ) + device_lines(DeviceMetric::Present, s, rows)) + (header_text(
            "razer_device_usb_devnum"@,
            "USB device number. Increments on every re-enumeration, so changes() over a window counts USB disconnects."@,
            "gauge"@,
        ) + device_lines(DeviceMetric::UsbDevnum, s, rows)) + (header_text(
            "razer_device_kernel_driver"@,
            "Which in-kernel HID driver owns the interfaces."@,
            "gauge"@,
        ) + device_lines(DeviceMetric::KernelDriver, s, rows)) + (header_text(
            "razer_device_mode"@,
            "Operating mode: 0 normal, 3 driver. Driver mode is the state in which the upstream razerkbd transaction-id defect resets this hardware."@,
            "gauge"@,
        ) + device_lines(DeviceMetric::Mode, s, rows)) + (header_text(
            "razer_device_poll_rate_hz"@,
            "Polling rate in hertz."@,
            "gauge"@,
        ) + device_lines(DeviceMetric::PollRate, s, rows)) + (header_text(
            "razer_device_brightness_ratio"@,
            "Backlight brightness, 0-1."@,
            "gauge"@,
        ) + device_lines(DeviceMetric::Brightness, s, rows))
    }

    /// The three counters and the latencies.
    pub open spec fn signal_metrics(self) -> Seq<char> {
        (header_text(
            "razer_transactions_total"@,
            "TRAFFIC: completed HID transactions."@,
            "counter"@,
        ) + counter_lines("razer_transactions_total"@, "command"@, self.transactions()))
            + (header_text(
            "razer_transaction_attempts_total"@,
            "SATURATION: attempts consumed, including retries. attempts/transactions > 1 means the device is rejecting well-formed reports."@,
            "counter"@,
        ) + counter_lines("razer_transaction_attempts_total"@, "command"@, self.attempts()))
            + (header_text(
            "razer_transaction_errors_total"@,
            "ERRORS: failed transactions by reason."@,
            "counter"@,
        ) + counter_lines("razer_transaction_errors_total"@, "reason"@, self.errors()))
            + (header_text(
            "razer_transaction_duration_seconds"@,
            "LATENCY: HID feature-report round trip."@,
            "histogram"@,
        ) + latency_lines(self.latency()))
    }
}

}
