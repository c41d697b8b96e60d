use razer::daemon::http::{answer, requested, respond, route, truncated, Route, MAX_REQUEST_LINE};
use razer::daemon::metrics::{escape, DeviceState, Histogram, Metrics};
use razer::daemon::table::{DeviceLabels, SeriesKey, Table};
use razer::time::Duration;

fn labels(device: &str, pid: &str) -> DeviceLabels {
    DeviceLabels {
        device: device.to_owned(),
        pid: pid.to_owned(),
    }
}

#[test]
fn the_whole_exposition_is_exact() {
    let mut m = Metrics::new(true);
    let mouse = labels("Mouse", "0x00AB");
    m.set_device_state(
        &mouse,
        DeviceState {
            present: true,
            usb_devnum: Some(7),
            kernel_driver: Some("hid-generic".into()),
            firmware: Some("v1.4".into()),
            serial: Some("S\"1".into()),
            device_mode: Some(3),
            poll_rate_hz: Some(1000),
            brightness: Some(128),
            transaction_id: Some(0x1F),
        },
    );
    m.set_device_state(&labels("Keyboard", "0x028D"), DeviceState::default());
    m.record_transaction(&mouse, "serial", 2, Duration::from_millis(30), "0.030000", Some("io"));
    m.record_poll("0.125000", true);
    m.record_poll("0.250000", false);
    assert_eq!(m.poll_count(), 2);

    let base = "device=\"Mouse\",pid=\"0x00AB\"";
    let series = format!("{base},command=\"serial\"");
    let bucket = |le: &str, n: u64| {
        format!("razer_transaction_duration_seconds_bucket{{{series},le=\"{le}\"}} {n}\n")
    };
    let want = [
        "# HELP razer_build_info Build information.\n".to_owned(),
        "# TYPE razer_build_info gauge\n".to_owned(),
        "razer_build_info{version=\"0.1.0\"} 1\n".to_owned(),
        "# HELP razer_uptime_seconds Seconds since razerd started.\n".to_owned(),
        "# TYPE razer_uptime_seconds gauge\n".to_owned(),
        "razer_uptime_seconds 12.500\n".to_owned(),
        "# HELP razer_device_info Device identity. Serial is only present when --expose-serial is set.\n".to_owned(),
        "# TYPE razer_device_info gauge\n".to_owned(),
        "razer_device_info{device=\"Keyboard\",pid=\"0x028D\"} 1\n".to_owned(),
        format!("razer_device_info{{{base},firmware=\"v1.4\",transaction_id=\"0x1F\",serial=\"S\\\"1\"}} 1\n"),
        "# HELP razer_device_present 1 if the device is currently enumerated.\n".to_owned(),
        "# TYPE razer_device_present gauge\n".to_owned(),
        "razer_device_present{device=\"Keyboard\",pid=\"0x028D\"} 0\n".to_owned(),
        format!("razer_device_present{{{base}}} 1\n"),
        "# HELP razer_device_usb_devnum USB device number. Increments on every re-enumeration, so changes() over a window counts USB disconnects.\n".to_owned(),
        "# TYPE razer_device_usb_devnum gauge\n".to_owned(),
        format!("razer_device_usb_devnum{{{base}}} 7\n"),
        "# HELP razer_device_kernel_driver Which in-kernel HID driver owns the interfaces.\n".to_owned(),
        "# TYPE razer_device_kernel_driver gauge\n".to_owned(),
        format!("razer_device_kernel_driver{{{base},driver=\"hid-generic\"}} 1\n"),
        "# HELP razer_device_mode Operating mode: 0 normal, 3 driver. Driver mode is the state in which the upstream razerkbd transaction-id defect resets this hardware.\n".to_owned(),
        "# TYPE razer_device_mode gauge\n".to_owned(),
        format!("razer_device_mode{{{base}}} 3\n"),
        "# HELP razer_device_poll_rate_hz Polling rate in hertz.\n".to_owned(),
        "# TYPE razer_device_poll_rate_hz gauge\n".to_owned(),
        format!("razer_device_poll_rate_hz{{{base}}} 1000\n"),
        "# HELP razer_device_brightness_ratio Backlight brightness, 0-1.\n".to_owned(),
        "# TYPE razer_device_brightness_ratio gauge\n".to_owned(),
        format!("razer_device_brightness_ratio{{{base}}} 0.5020\n"),
        "# HELP razer_transactions_total TRAFFIC: completed HID transactions.\n".to_owned(),
        "# TYPE razer_transactions_total counter\n".to_owned(),
        format!("razer_transactions_total{{{series}}} 1\n"),
        "# HELP razer_transaction_attempts_total SATURATION: attempts consumed, including retries. attempts/transactions > 1 means the device is rejecting well-formed reports.\n".to_owned(),
        "# TYPE razer_transaction_attempts_total counter\n".to_owned(),
        format!("razer_transaction_attempts_total{{{series}}} 2\n"),
        "# HELP razer_transaction_errors_total ERRORS: failed transactions by reason.\n".to_owned(),
        "# TYPE razer_transaction_errors_total counter\n".to_owned(),
        format!("razer_transaction_errors_total{{{base},reason=\"io\"}} 1\n"),
        "# HELP razer_transaction_duration_seconds LATENCY: HID feature-report round trip.\n".to_owned(),
        "# TYPE razer_transaction_duration_seconds histogram\n".to_owned(),
        bucket("0.0005", 0),
        bucket("0.001", 0),
        bucket("0.002", 0),
        bucket("0.005", 0),
        bucket("0.01", 0),
        bucket("0.025", 0),
        bucket("0.05", 1),
        bucket("0.1", 1),
        bucket("0.25", 1),
        bucket("0.5", 1),
        bucket("1", 1),
        bucket("+Inf", 1),
        format!("razer_transaction_duration_seconds_sum{{{series}}} 0.030000\n"),
        format!("razer_transaction_duration_seconds_count{{{series}}} 1\n"),
        "# HELP razer_polls_total Device poll cycles run.\n".to_owned(),
        "# TYPE razer_polls_total counter\n".to_owned(),
        "razer_polls_total 2\n".to_owned(),
        "# HELP razer_poll_failures_total Poll cycles that failed for at least one device.\n".to_owned(),
        "# TYPE razer_poll_failures_total counter\n".to_owned(),
        "razer_poll_failures_total 1\n".to_owned(),
        "# HELP razer_poll_duration_seconds Duration of the most recent poll cycle.\n".to_owned(),
        "# TYPE razer_poll_duration_seconds gauge\n".to_owned(),
        "razer_poll_duration_seconds 0.250000\n".to_owned(),
    ]
    .concat();
    assert_eq!(m.render("0.1.0", "12.500"), want);
}

#[test]
fn an_empty_registry_has_polled_for_no_time() {
    let out = Metrics::new(false).render("0.1.0", "0.000");
    assert!(out.ends_with("razer_poll_duration_seconds 0.000000\n"));
    assert!(!out.contains('{') || out.matches('{').count() == 1);
}

#[test]
fn brightness_is_printed_as_a_ratio_of_255() {
    for b in 0..=255u8 {
        let mut m = Metrics::new(false);
        m.set_device_state(
            &labels("d", "p"),
            DeviceState {
                brightness: Some(b),
                ..DeviceState::default()
            },
        );
        let want = format!(
            "razer_device_brightness_ratio{{device=\"d\",pid=\"p\"}} {:.4}\n",
            f64::from(b) / 255.0
        );
        assert!(m.render("0", "0").contains(&want), "{want}");
    }
}

#[test]
fn buckets_split_where_seconds_do() {
    let bounds = [0.0005, 0.001, 0.002, 0.005, 0.01, 0.025, 0.05, 0.1, 0.25, 0.5, 1.0];
    for bound in bounds {
        let at = (bound * 1e9_f64).round() as u64;
        for nanos in [at - 1, at, at + 1] {
            let mut h = Histogram::new();
            h.observe(Duration { nanos });
            let seconds = std::time::Duration::from_nanos(nanos).as_secs_f64();
            for (i, b) in bounds.iter().enumerate() {
                assert_eq!(h.counts[i], u64::from(seconds <= *b), "{nanos} in {b}");
            }
            assert_eq!(h.total, 1);
        }
    }
}

#[test]
fn escaping_agrees_with_replacing() {
    for s in ["", "plain", "a\\b", "\"q\"", "line\nbreak", "\r\n", "\\\"\n\r\\n", "é\\"] {
        let want = s
            .replace('\\', "\\\\")
            .replace('"', "\\\"")
            .replace('\n', "\\n")
            .replace('\r', "\\r");
        assert_eq!(escape(s), want);
        assert!(!escape(s).contains('\n') && !escape(s).contains('\r'));
    }
}

#[test]
fn series_are_listed_in_order_and_replaced_in_place() {
    let mut t: Table<u32> = Table::new();
    for (device, name, value) in [("b", "x", 1), ("a", "z", 2), ("b", "a", 3), ("a", "z", 4)] {
        t.set(SeriesKey::new(&labels(device, "p"), name), value);
    }
    assert_eq!(t.len(), 3);
    let rows: Vec<(String, String, u32)> = (0..t.len())
        .map(|i| {
            let key = t.key_at(i);
            (key.labels.device.clone(), key.name.clone(), *t.value_at(i))
        })
        .collect();
    assert_eq!(
        rows,
        vec![
            ("a".to_owned(), "z".to_owned(), 4),
            ("b".to_owned(), "a".to_owned(), 3),
            ("b".to_owned(), "x".to_owned(), 1),
        ]
    );
    assert_eq!(t.get(&SeriesKey::new(&labels("b", "p"), "a")), Some(&3));
    assert_eq!(t.get(&SeriesKey::new(&labels("c", "p"), "a")), None);
}

#[test]
fn counters_accumulate_per_series() {
    let mut m = Metrics::new(false);
    let d = labels("d", "p");
    for (n, sum) in [(1, "0.001000"), (2, "0.002000"), (1, "0.003000")] {
        assert!(m.has_room(&d, "x", n, None));
        m.record_transaction(&d, "x", n, Duration::from_millis(1), sum, None);
    }
    m.record_transaction(&d, "y", 5, Duration::from_secs(2), "2.000000", Some("x"));
    let out = m.render("0", "0");
    assert!(out.contains("razer_transactions_total{device=\"d\",pid=\"p\",command=\"x\"} 3\n"));
    assert!(out.contains("razer_transaction_attempts_total{device=\"d\",pid=\"p\",command=\"x\"} 4\n"));
    assert!(out.contains("seconds_sum{device=\"d\",pid=\"p\",command=\"x\"} 0.003000\n"));
    assert!(out.contains("seconds_count{device=\"d\",pid=\"p\",command=\"y\"} 1\n"));
    assert!(out.contains("command=\"y\",le=\"1\"} 0\n"));
    assert!(out.contains("command=\"y\",le=\"+Inf\"} 1\n"));
}

#[test]
fn targets_are_routed_and_answered() {
    assert_eq!(route("/metrics"), Route::Metrics);
    assert_eq!(route("/"), Route::Index);
    assert_eq!(route("/metrics/"), Route::NotFound);
    assert_eq!(route(""), Route::NotFound);
    assert_eq!(requested("GET /metrics HTTP/1.1\r\n"), Route::Metrics);
    assert_eq!(requested("GET"), Route::NotFound);

    assert_eq!(
        respond(Route::NotFound, "secret"),
        "HTTP/1.1 404 Not Found\r\nContent-Type: text/plain; charset=utf-8\r\n\
         Content-Length: 10\r\nConnection: close\r\n\r\nnot found\n"
    );
    assert_eq!(
        respond(Route::Metrics, "é\n"),
        "HTTP/1.1 200 OK\r\nContent-Type: text/plain; version=0.0.4; charset=utf-8\r\n\
         Content-Length: 3\r\nConnection: close\r\n\r\né\n"
    );
    let index = answer("GET / HTTP/1.1\r\n", &Metrics::new(false), "0", "0").expect("answered");
    assert!(index.starts_with("HTTP/1.1 200 OK\r\nContent-Type: text/html; charset=utf-8\r\n"));
    assert!(index.ends_with(
        "\r\n\r\n<html><body><h1>razerd</h1><a href=\"/metrics\">metrics</a></body></html>\n"
    ));
}

#[test]
fn a_full_buffer_counts_as_truncated_unless_it_ends_the_line() {
    let limit = MAX_REQUEST_LINE as usize;
    assert!(!truncated(&"a".repeat(limit - 1)));
    assert!(truncated(&"a".repeat(limit)));
    assert!(!truncated(&("a".repeat(limit - 1) + "\n")));
    assert!(truncated(&"é".repeat(limit / 2)));
    assert!(!truncated(""));
}
