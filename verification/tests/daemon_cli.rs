use razer::daemon::args::{command, parse_mode_request, parse_transaction_id, Command, ModeRequest};
use razer::daemon::device_mode::{all_clear, counted_before, hex, outcome, plan, watch, watching, write_mode, Watch};
use razer::daemon::host::{climb, count_disconnects, is_hid_device_of, parse_devnum, Climb};
use razer::daemon::info::{
    heading, node_lines, not_located, not_opened, nothing_supported, supported_pids, tally, Interrogation,
    Outcome, Visit,
};
use razer::daemon::list::listing;
use razer::devices::{all, lookup};
use razer::hid::{
    list_razer_nodes, HidError, HidrawNode, MockClock, MockSysfs, MockTransport, UsbInterfaceInfo,
};
use razer::proto::{cmd, DeviceMode, Status};

fn args(words: &[&str]) -> Vec<String> {
    words.iter().map(|w| (*w).to_owned()).collect()
}

fn node(name: &str, pid: u16, interface_number: u8) -> HidrawNode {
    HidrawNode {
        name: name.to_owned(),
        path: format!("/dev/{name}"),
        info: UsbInterfaceInfo {
            vendor_id: 0x1532,
            product_id: pid,
            interface_number,
            interface_protocol: 0,
        },
    }
}

#[test]
fn the_first_argument_names_the_command() {
    for (word, want) in [
        ("info", Command::Info),
        ("list", Command::List),
        ("set-device-mode", Command::SetDeviceMode),
        ("--version", Command::Version),
        ("-V", Command::Version),
        ("help", Command::Usage),
        ("Info", Command::Usage),
    ] {
        assert_eq!(command(&args(&[word, "list"])), want);
    }
    assert_eq!(command(&[]), Command::Usage);
}

#[test]
fn a_mode_request_needs_a_mode_and_a_confirmation() {
    let desk = "--yes-i-am-at-the-desk";
    assert_eq!(
        parse_mode_request(&args(&["driver", desk])),
        Ok(ModeRequest {
            mode: DeviceMode::Driver,
            tid_override: None
        })
    );
    assert_eq!(
        parse_mode_request(&args(&["normal", "--transaction-id", "0x1f", desk])),
        Ok(ModeRequest {
            mode: DeviceMode::Normal,
            tid_override: Some(0x1F)
        })
    );
    for bad in [args(&[]), args(&[desk, "driver"]), args(&["Driver", desk])] {
        assert_eq!(
            parse_mode_request(&bad),
            Err("expected `normal` or `driver`".to_owned())
        );
    }
    let refused = parse_mode_request(&args(&["driver"])).expect_err("not confirmed");
    assert!(refused.starts_with("refusing to write without --yes-i-am-at-the-desk.\n"));
    assert!(refused.ends_with("so a human needs to be present."));
    assert_eq!(
        parse_mode_request(&args(&["driver", desk, "--transaction-id"])),
        Err("--transaction-id needs a value, e.g. --transaction-id 1F".to_owned())
    );
    assert_eq!(
        parse_mode_request(&args(&["driver", "--transaction-id", desk])),
        Err(format!(
            "--transaction-id needs a hex value, but got the flag `{desk}`"
        ))
    );
}

#[test]
fn a_transaction_id_is_one_hexadecimal_byte() {
    for (raw, want) in [("1F", 0x1F), ("0xff", 0xFF), ("0X0a", 0x0A), ("001F", 0x1F), ("0", 0)] {
        assert_eq!(parse_transaction_id(raw), Ok(want), "{raw}");
    }
    for raw in ["", "0x", "0x0xFF", "1G", "+1", " 1", "é"] {
        assert_eq!(
            parse_transaction_id(raw),
            Err(format!("`{raw}` is not a hex byte, e.g. 1F or 0x1F"))
        );
    }
    assert_eq!(
        parse_transaction_id("1FF"),
        Err("number too large to fit in target type".to_owned())
    );
}

#[test]
fn the_listing_lines_up() {
    assert_eq!(listing(&Vec::new()), "No Razer hidraw nodes found.\n");
    let nodes = vec![node("hidraw3", 0x028D, 3), node("hidraw12", 0x0E05, 0)];
    let mut want = format!(
        "{:<10} {:<16} {:>6} {:>6}  SUPPORTED\n",
        "NODE", "PATH", "PID", "IFACE"
    );
    for n in &nodes {
        want += &format!(
            "{:<10} {:<16} 0x{:04X} {:>6}  {}\n",
            n.name,
            n.path,
            n.info.product_id,
            n.info.interface_number,
            lookup(n.info.product_id).map_or("-", |e| e.name)
        );
    }
    assert_eq!(listing(&nodes), want);
}

#[test]
fn the_plan_shows_the_frame_that_goes_out() {
    let entry = &all()[2];
    let frame = "001f000000020004".to_owned() + "03" + &"00".repeat(79) + "05" + "00";
    let request = ModeRequest {
        mode: DeviceMode::Driver,
        tid_override: None,
    };
    assert_eq!(
        plan(entry, "/dev/hidraw3", &request),
        format!(
            "Razer BlackWidow V4 Pro (0x028D)\n  node             /dev/hidraw3\n  \
             mode             Driver (0x03)\n  \
             transaction id   0x1F   (from device table)\n  wire             {frame}\n"
        )
    );
    let request = ModeRequest {
        mode: DeviceMode::Normal,
        tid_override: Some(0xFF),
    };
    let text = plan(entry, "/dev/hidraw3", &request);
    assert!(text.contains("  mode             Normal (0x00)\n"));
    assert!(text.contains("0xFF   <-- OVERRIDDEN\n  *** 0xFF is the value"));
    assert!(text.contains("  wire             00ff000000020004"));
    assert_eq!(hex(&[0x00, 0xAB, 0x0F]), "00ab0f");
}

#[test]
fn the_outcome_and_the_watch_say_what_happened() {
    assert_eq!(counted_before(Some(4)), "  disconnects before: 4\n");
    assert_eq!(counted_before(None), "");
    assert_eq!(
        outcome(1, "1.250", Some(0x1F), 0x1F, &Ok(())),
        "  attempts         1\n  elapsed          1.250 ms\n  \
         echoed txn id    0x1F\n  result           OK\n"
    );
    assert_eq!(
        outcome(5, "9.000", Some(0x00), 0xFF, &Err(HidError::ShortRead { got: 3 })),
        "  attempts         5\n  elapsed          9.000 ms\n  \
         echoed txn id    0x00   <-- DIFFERS\n  \
         result           ERROR: short feature read: got 3 bytes, expected 91\n"
    );
    assert!(!outcome(1, "1.0", None, 0, &Ok(())).contains("echoed"));

    assert_eq!(watching(), "\n  watching for 90 s ...\n");
    assert_eq!(watch(7, Some(2), Some(2)), Watch::LookAgain(8));
    assert_eq!(watch(7, None, Some(2)), Watch::LookAgain(8));
    assert_eq!(watch(7, Some(2), None), Watch::LookAgain(8));
    assert_eq!(watch(89, Some(2), Some(2)), Watch::LookAgain(90));
    assert_eq!(watch(90, Some(2), Some(2)), Watch::AllClear);
    for second in [7, 90] {
        assert_eq!(
            watch(second, Some(2), Some(3)),
            Watch::Alarm(format!(
                "  *** USB DISCONNECT after {second} s (count 2 -> 3)\n  \
                 *** replug the keyboard. This transaction id is NOT safe.\n"
            ))
        );
    }
    let clear = all_clear(Some(2), Some(2));
    assert!(clear.starts_with("  disconnects after:  2 (was 2) — no reset within 90 s\n"));
    assert!(all_clear(None, Some(2)).starts_with("\n  NOTE: one trial"));
}

#[test]
fn the_run_fails_only_when_nothing_could_be_opened() {
    let all_failed = tally(&vec![Outcome::Failed, Outcome::Failed]);
    assert_eq!(
        all_failed.verdict(),
        Err("could not open any of the 2 supported device(s)".to_owned())
    );
    let idle = tally(&vec![Outcome::Failed, Outcome::Idle, Outcome::Opened]);
    assert_eq!((idle.opened, idle.failed, idle.idle), (2, 1, 1));
    assert_eq!(idle.verdict(), Ok(()));
    assert_eq!(
        idle.summary(),
        "\nAll commands above were GET-class reads. Nothing was written.\n\
         1 receiver(s) had no device connected; that is a state, not an error.\n"
    );
    assert_eq!(tally(&Vec::new()).verdict(), Ok(()));
    assert!(nothing_supported().starts_with("No supported Razer devices found.\n"));
}

#[test]
fn each_supported_product_is_read_once() {
    let nodes = list_razer_nodes(
        &MockSysfs::blackwidow_v4_pro()
            .with_node("hidraw9", node("hidraw9", 0x0E05, 0).info)
            .with_node("hidraw8", node("hidraw8", 0x00AA, 0).info),
    )
    .expect("listed");
    assert_eq!(supported_pids(&nodes), vec![0x028D, 0x00AA]);
}

#[test]
fn device_lines_name_the_device_and_its_node() {
    let entry = &all()[1];
    assert_eq!(heading(entry), "\nRazer Basilisk V3 Pro (Wireless) (0x00AB)\n");
    assert_eq!(
        node_lines(&node("hidraw4", 0x00AB, 0), entry),
        "  node            /dev/hidraw4\n  usb interface   0\n  transaction id  0x1F\n"
    );
    let gone = HidError::DeviceNotFound {
        vid: 0x1532,
        pid: 0x00AB,
        interface: 0,
    };
    assert_eq!(
        not_located(&gone),
        "  ERROR locating the control interface: \
         no hidraw node for 1532:00ab on USB interface 0\n  (unplugged mid-run? try again)\n"
    );
    let denied = HidError::Io {
        op: "open",
        errno: 13,
    };
    assert_eq!(
        not_opened("/dev/hidraw4", &denied),
        "  ERROR opening /dev/hidraw4: open failed: errno 13\n  \
         (permissions? install udev/60-razer-rust.rules — see `razerd` usage)\n"
    );
}

#[test]
fn host_facts_are_read_from_text() {
    assert_eq!(parse_devnum("11\n"), Some(11));
    assert_eq!(parse_devnum(" 18446744073709551615 "), Some(u64::MAX));
    assert_eq!(parse_devnum("18446744073709551616"), None);
    assert_eq!(parse_devnum("\n"), None);
    assert_eq!(parse_devnum("1a"), None);

    assert!(is_hid_device_of("0003:1532:028D.0004", 0x028D));
    assert!(is_hid_device_of("0003:1532:028d.0004", 0x028D));
    assert!(!is_hid_device_of("0003:1532:028D:0004", 0x028D));
    assert!(!is_hid_device_of("0003:028D:00AB.0004", 0x028D));

    assert_eq!(climb(true, None), Climb::Here);
    assert_eq!(climb(false, Some("/sys/devices")), Climb::Parent);
    assert_eq!(climb(false, Some("/sys")), Climb::Nowhere);
    assert_eq!(climb(false, None), Climb::Nowhere);

    assert_eq!(
        count_disconnects("usb 1-2: USB disconnect, device 5\nother\nUSB disconnect\n"),
        2
    );
}

#[test]
fn the_frame_that_is_planned_is_the_one_that_is_sent() {
    let entry = &all()[2];
    for (tid_override, tid) in [(None, 0x1F), (Some(0xFF), 0xFF)] {
        let request = ModeRequest {
            mode: DeviceMode::Driver,
            tid_override,
        };
        let mut transport = MockTransport::new();
        let mut response = cmd::set_device_mode(DeviceMode::Driver).with_transaction_id(0x42);
        response.status = Status::Failure;
        transport.push_response(&response);
        response.status = Status::Successful;
        transport.push_response(&response);
        let mut clock = MockClock::new();
        let written = write_mode(entry, &mut transport, &mut clock, &request);
        assert!(written.result.is_ok());
        assert_eq!(written.tid, tid);
        assert_eq!(written.attempts, 2);
        assert_eq!(written.echoed, Some(0x42));
        assert_eq!(transport.sent().len(), 2);
        let plan = plan(entry, "/dev/hidraw3", &request);
        for buf in transport.sent() {
            assert_eq!(buf[0], 0x00);
            assert_eq!(buf[2], tid);
            assert!(plan.ends_with(&format!("  wire             {}\n", hex(&buf[1..]))));
        }
    }
}

#[test]
fn a_visit_ends_in_an_outcome() {
    let lost = Visit::NotLocated(HidError::ShortRead { got: 1 });
    assert_eq!(lost.outcome(), Outcome::Failed);
    assert_eq!(lost.text(), not_located(&HidError::ShortRead { got: 1 }));
    let shut = Visit::NotOpened {
        path: "/dev/hidraw4".to_owned(),
        error: HidError::ShortRead { got: 1 },
    };
    assert_eq!(shut.outcome(), Outcome::Failed);
    assert_eq!(
        shut.text(),
        not_opened("/dev/hidraw4", &HidError::ShortRead { got: 1 })
    );
    for (idle, want) in [(true, Outcome::Idle), (false, Outcome::Opened)] {
        let visit = Visit::Interrogated(Interrogation {
            idle,
            text: "lines\n".to_owned(),
        });
        assert_eq!(visit.outcome(), want);
        assert_eq!(visit.text(), "lines\n");
    }
}
