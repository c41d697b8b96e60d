use razer::daemon::http::{
    answer, reads_on, DEFAULT_ADDR, MAX_HEADERS, MAX_HEADER_LINE, MAX_REQUEST_LINE,
};
use razer::daemon::metrics::{DeviceState, Metrics};
use razer::daemon::table::DeviceLabels;
use razer::time::Duration;
use std::io::{BufRead, Read};

const VERSION: &str = "0.1.0";

fn labels() -> DeviceLabels {
    DeviceLabels {
        device: "Razer BlackWidow V4 Pro".into(),
        pid: "0x028D".into(),
    }
}

#[test]
fn serial_is_absent_unless_opted_in() {
    let mut m = Metrics::new(false);
    m.set_device_state(
        &labels(),
        DeviceState {
            present: true,
            serial: Some("IO2433F81500082".into()),
            ..DeviceState::default()
        },
    );
    let out = m.render(VERSION, "1.000");
    assert!(
        !out.contains("IO2433F81500082"),
        "serial must not leak without --expose-serial"
    );
    assert!(!out.contains("serial="));
}

#[test]
fn serial_is_present_when_opted_in() {
    let mut m = Metrics::new(true);
    m.set_device_state(
        &labels(),
        DeviceState {
            present: true,
            serial: Some("TESTSERIAL00001".into()),
            ..DeviceState::default()
        },
    );
    assert!(m.render(VERSION, "1.000").contains("serial=\"TESTSERIAL00001\""));
}

#[test]
fn attempts_exceed_transactions_when_retrying() {
    let mut m = Metrics::new(false);
    m.record_transaction(
        &labels(),
        "firmware_version",
        3,
        Duration::from_millis(5),
            "0.005000",
        None,
    );
    let out = m.render(VERSION, "1.000");
    assert!(out.contains("razer_transactions_total{device=\"Razer BlackWidow V4 Pro\",pid=\"0x028D\",command=\"firmware_version\"} 1"));
    assert!(out.contains("razer_transaction_attempts_total{device=\"Razer BlackWidow V4 Pro\",pid=\"0x028D\",command=\"firmware_version\"} 3"));
}

#[test]
fn errors_are_counted_by_reason() {
    let mut m = Metrics::new(false);
    m.record_transaction(
        &labels(),
        "serial",
        5,
        Duration::from_millis(50),
            "0.050000",
        Some("retries_exhausted"),
    );
    assert!(m.render(VERSION, "1.000").contains("reason=\"retries_exhausted\"} 1"));
}

#[test]
fn device_mode_and_devnum_render() {
    let mut m = Metrics::new(false);
    m.set_device_state(
        &labels(),
        DeviceState {
            present: true,
            usb_devnum: Some(11),
            kernel_driver: Some("razerkbd".into()),
            device_mode: Some(0x03),
            ..DeviceState::default()
        },
    );
    let out = m.render(VERSION, "1.000");
    assert!(out.contains(
        "razer_device_usb_devnum{device=\"Razer BlackWidow V4 Pro\",pid=\"0x028D\"} 11"
    ));
    assert!(out.contains("driver=\"razerkbd\"} 1"));
    assert!(
        out.contains("razer_device_mode{device=\"Razer BlackWidow V4 Pro\",pid=\"0x028D\"} 3")
    );
}

#[test]
fn label_values_are_escaped() {
    let mut m = Metrics::new(true);
    m.set_device_state(
        &DeviceLabels {
            device: "Weird \"Device\"".into(),
            pid: "0x0000".into(),
        },
        DeviceState {
            present: true,
            ..DeviceState::default()
        },
    );
    assert!(m.render(VERSION, "1.000").contains("device=\"Weird \\\"Device\\\"\""));
}

#[test]
fn carriage_returns_are_escaped_too() {
    let mut m = Metrics::new(false);
    m.set_device_state(
        &labels(),
        DeviceState {
            present: true,
            kernel_driver: Some("razerkbd\r\nnot-a-new-series".into()),
            ..DeviceState::default()
        },
    );
    let out = m.render(VERSION, "1.000");
    assert!(out.contains(r"razerkbd\r\nnot-a-new-series"));
    assert!(
        !out.contains('\r'),
        "a raw carriage return reached the exposition output"
    );
}

/// Read one request off `bytes` the way the endpoint reads a connection, and
/// return what it answers, or `None` if it hangs up without an answer.
fn scrape(bytes: &[u8]) -> Option<String> {
    let mut reader = bytes;
    let mut line = String::new();
    (&mut reader)
        .take(MAX_REQUEST_LINE)
        .read_line(&mut line)
        .ok()?;
    let answer = answer(&line, &Metrics::new(false), VERSION, "1.000");
    let mut seen = 0;
    loop {
        let mut header = String::new();
        let read = (&mut reader)
            .take(MAX_HEADER_LINE)
            .read_line(&mut header)
            .ok()?;
        if !reads_on(seen, read, &header) {
            break;
        }
        seen += 1;
    }
    assert!(seen < MAX_HEADERS);
    answer
}

#[test]
fn a_well_formed_scrape_is_answered() {
    let out = scrape(b"GET /metrics HTTP/1.1\r\nHost: localhost\r\n\r\n")
        .expect("a normal scrape must be answered");
    assert!(out.starts_with("HTTP/1.1 200 OK"));
    assert!(out.contains("razer_build_info"));
}

#[test]
fn a_request_line_with_no_newline_is_bounded_not_buffered_forever() {
    let flood = vec![b'A'; (MAX_REQUEST_LINE as usize) * 2];
    assert!(
        scrape(&flood).is_none(),
        "an oversized request line must be refused, not answered"
    );
}

#[test]
fn the_header_loop_is_bounded() {
    let mut req = Vec::from(&b"GET /metrics HTTP/1.1\r\n"[..]);
    for i in 0..(MAX_HEADERS * 10) {
        req.extend_from_slice(format!("X-Pad-{i}: x\r\n").as_bytes());
    }
    let out = scrape(&req).expect("a bounded header run must still be answered");
    assert!(out.starts_with("HTTP/1.1 200 OK"));
}

#[test]
fn the_default_address_is_loopback() {
    let (host, port) = DEFAULT_ADDR.split_once(':').expect("host and port");
    port.parse::<u16>().expect("a port number");
    assert!(
        host.starts_with("127."),
        "an unauthenticated endpoint that can expose the device serial must \
         not default to a routable address"
    );
}

#[test]
fn histogram_buckets_are_cumulative() {
    let mut m = Metrics::new(false);
    for _ in 0..3 {
        m.record_transaction(&labels(), "x", 1, Duration::from_millis(1),
            "0.001000", None);
    }
    let out = m.render(VERSION, "1.000");
    assert!(out.contains("le=\"0.001\"} 3"));
    assert!(out.contains("le=\"0.01\"} 3"));
    assert!(out.contains("le=\"+Inf\"} 3"));
    assert!(out.contains("le=\"0.0005\"} 0"));
}
