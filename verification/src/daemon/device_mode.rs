//! `razerd set-device-mode`: what is said before, during and after the write.
use vstd::prelude::*;
use vstd::string::StringExecFns;

use crate::daemon::args::ModeRequest;
use crate::devices::table::DeviceEntry;
use crate::hid::error::HidError;
use crate::hid::laws::law_a_transaction_sends_nothing_else;
use crate::hid::mock::{MockClock, MockTransport};
use crate::hid::session::{acknowledges, hidraw_buffer, Clock, Session};
use crate::hid::transport::FeatureTransport;
use crate::proto::cmd;
use crate::proto::crc::{checksum, checksum_valid};
use crate::proto::report::{DeviceMode, RazerReport};
use crate::text::laws::{
    law_contained_means_cut_out, law_hexadecimal_keeps_its_case, law_hexadecimal_reads_back,
};
use crate::text::{
    contains, decimal, lower_hex, parsed, push_decimal, push_lower_hex, push_upper_hex,
    starts_with, upper_hex, IntFault,
};

verus! {

/// The keyboard the mode is written to. There is no reason to point the command
/// at a mouse.
pub const KEYBOARD_PID: u16 = 0x028D;

/// How long to watch for a firmware reset after a device-mode write, in seconds.
///
/// The delay between a bad write and the disconnect has ranged from 4 s to
/// 73 s, so the window has to clear the top of that range.
pub const WATCH_SECONDS: u32 = 90;

/// Bytes as pairs of lower case hexadecimal digits.
pub open spec fn hex_text(bytes: Seq<u8>) -> Seq<char>
    decreases bytes.len(),
{
    if bytes.len() == 0 {
        Seq::empty()
    } else {
        hex_text(bytes.drop_last()) + lower_hex(bytes.last() as nat, 2)
    }
}

/// Bytes as pairs of lower case hexadecimal digits.
pub fn hex(b: &[u8]) -> (text: String)
    ensures
        text@ == hex_text(b@),
{
    let mut out = String::new();
    let mut i: usize = 0;
    assert(b@.take(0) =~= Seq::empty());
    while i < b.len()
        invariant
            0 <= i <= b@.len(),
            out@ == hex_text(b@.take(i as int)),
        decreases b@.len() - i,
    {
        push_lower_hex(&mut out, b[i] as u64, 2);
        assert(b@.take(i + 1).drop_last() =~= b@.take(i as int));
        assert(b@.take(i + 1).last() == b@[i as int]);
        i = i + 1;
    }
    assert(b@.take(i as int) =~= b@);
    out
}

/// The transaction id that a request is sent with.
pub open spec fn effective_tid(request: ModeRequest, entry: DeviceEntry) -> u8 {
    match request.tid_override {
        Some(tid) => tid,
        None => entry.transaction_id,
    }
}

/// The name of a mode.
pub open spec fn mode_name(mode: DeviceMode) -> Seq<char> {
    match mode {
        DeviceMode::Normal => "Normal"@,
        DeviceMode::Driver => "Driver"@,
    }
}

/// What is printed before the write, where `frame` is the report in hexadecimal.
pub open spec fn plan_text(
    entry: DeviceEntry,
    node: Seq<char>,
    request: ModeRequest,
    frame: Seq<char>,
) -> Seq<char> {
    let tid = effective_tid(request, entry);
    entry.name@ + " (0x"@ + upper_hex(entry.pid as nat, 4) + ")\n  node             "@ + node
        + "\n  mode             "@ + mode_name(request.mode) + " (0x"@ + upper_hex(
        request.mode.byte() as nat,
        2,
    ) + ")\n  transaction id   0x"@ + upper_hex(tid as nat, 2) + (if request.tid_override is Some {
        "   <-- OVERRIDDEN\n"@
    } else {
        "   (from device table)\n"@
    }) + (if tid == 0xFF {
        "  *** 0xFF is the value the upstream C driver sends and the value\n  *** this project exists to avoid. Expect a firmware reset.\n"@
    } else {
        Seq::empty()
    }) + "  wire             "@ + frame + "\n"@
}

/// The frame that sets a mode under a transaction id.
pub open spec fn mode_frame(tid: u8, mode: DeviceMode) -> Seq<u8> {
    let body = seq![0x00, tid, 0x00, 0x00, 0x00, 0x02, 0x00, 0x04, mode.byte()] + Seq::new(
        79,
        |i: int| 0u8,
    );
    body.push(checksum(body)).push(0x00)
}

/// A set-mode command under a transaction id encodes to that frame.
proof fn lemma_mode_frame(report: RazerReport, tid: u8, mode: DeviceMode)
    requires
        report.is_command(0x00, 0x04, 0x02, seq![mode.byte(), 0x00]),
    ensures
        (RazerReport { transaction_id: tid, ..report }).frame() == mode_frame(tid, mode),
        hidraw_buffer(report, tid) == seq![0u8] + mode_frame(tid, mode),
{
    let stamped = RazerReport { transaction_id: tid, ..report };
    let body = seq![0x00, tid, 0x00, 0x00, 0x00, 0x02, 0x00, 0x04, mode.byte()] + Seq::new(
        79,
        |i: int| 0u8,
    );
    assert(stamped.body() =~= body);
}

/// What is printed before the write: the device, the node, the mode, the
/// transaction id and the report as it will go out.
pub fn plan(entry: &DeviceEntry, node: &str, request: &ModeRequest) -> (text: String)
    ensures
        text@ == plan_text(
            *entry,
            node@,
            *request,
            hex_text(mode_frame(effective_tid(*request, *entry), request.mode)),
        ),
{
    let tid: u8 = match request.tid_override {
        Some(tid) => tid,
        None => entry.transaction_id,
    };
    let report = cmd::set_device_mode(request.mode);
    let stamped = report.with_transaction_id(tid);
    proof {
        lemma_mode_frame(report, tid, request.mode);
    }
    let bytes = stamped.to_bytes();
    let frame = hex(&bytes);
    let mut out = entry.name.to_owned();
    out.append(" (0x");
    push_upper_hex(&mut out, entry.pid as u64, 4);
    out.append(")\n  node             ");
    out.append(node);
    out.append("\n  mode             ");
    match request.mode {
        DeviceMode::Normal => out.append("Normal"),
        DeviceMode::Driver => out.append("Driver"),
    }
    out.append(" (0x");
    push_upper_hex(&mut out, request.mode.to_u8() as u64, 2);
    out.append(")\n  transaction id   0x");
    push_upper_hex(&mut out, tid as u64, 2);
    if request.tid_override.is_some() {
        out.append("   <-- OVERRIDDEN\n");
    } else {
        out.append("   (from device table)\n");
    }
    let ghost before = out@;
    if tid == 0xFF {
        out.append(
            "  *** 0xFF is the value the upstream C driver sends and the value\n  *** this project exists to avoid. Expect a firmware reset.\n",
        );
    } else {
        assert(before + Seq::<char>::empty() =~= before);
    }
    out.append("  wire             ");
    out.append(frame.as_str());
    out.append("\n");
    assert(out@ =~= plan_text(*entry, node@, *request, frame@));
    out
}

/// What is printed of the disconnects counted before the write, if they could
/// be counted.
pub open spec fn before_text(before: Option<u64>) -> Seq<char> {
    match before {
        Some(n) => "  disconnects before: "@ + decimal(n as nat) + "\n"@,
        None => Seq::empty(),
    }
}

/// What is printed of the disconnects counted before the write.
pub fn counted_before(before: Option<u64>) -> (text: String)
    ensures
        text@ == before_text(before),
{
    match before {
        Some(n) => {
            let mut out = "  disconnects before: ".to_owned();
            push_decimal(&mut out, n);
            out.append("\n");
            out
        },
        None => String::new(),
    }
}

/// A mode write that was made.
#[derive(Debug)]
pub struct ModeWrite {
    /// The transaction id it went out with.
    pub tid: u8,
    /// The attempts it took.
    pub attempts: u32,
    /// The transaction id of the last response, if there was one.
    pub echoed: Option<u8>,
    /// How it ended.
    pub result: Result<(), HidError>,
}

/// Whether a mode write may be made of a transport and a clock: a fresh session
/// with the device, under the effective transaction id, sets the mode once.
pub open spec fn writes_mode<'a, T: FeatureTransport, C: Clock>(
    entry: &'static DeviceEntry,
    request: ModeRequest,
    before: Session<'a, T, C>,
    after: Session<'a, T, C>,
    written: ModeWrite,
) -> bool {
    &&& before.bound_entry() == entry
    &&& before.tid() == effective_tid(request, *entry)
    &&& before.attempts() == 0
    &&& before.echoed() is None
    &&& before.writes_device_mode(&after, request.mode, written.result)
    &&& written.tid == before.tid()
    &&& written.attempts == after.attempts()
    &&& written.echoed == after.echoed()
}

/// Write the operating mode. The command goes out with the device table's
/// transaction id unless the request overrides it.
pub fn write_mode<'a, T: FeatureTransport, C: Clock>(
    entry: &'static DeviceEntry,
    transport: &'a mut T,
    clock: &'a mut C,
    request: &ModeRequest,
) -> (written: ModeWrite)
    ensures
        exists|before: Session<'a, T, C>, after: Session<'a, T, C>|
            {
                &&& #[trigger] writes_mode(entry, *request, before, after, written)
                &&& before.device() == *old(transport)
                &&& before.timer() == *old(clock)
                &&& after.device() == *final(transport)
                &&& after.timer() == *final(clock)
            },
{
    let mut session = Session::new(entry, transport, clock);
    match request.tid_override {
        Some(tid) => {
            session = session.with_transaction_id_override(tid);
        },
        None => {},
    }
    let ghost before = session;
    let result = session.set_device_mode(request.mode);
    let written = ModeWrite {
        tid: session.transaction_id(),
        attempts: session.last_attempts(),
        echoed: session.last_response_transaction_id(),
        result,
    };
    proof {
        session.lemma_gives_back();
        assert(writes_mode(entry, *request, before, session, written));
    }
    written
}

/// What a mode write hands to any transport is one command, and it encodes to
/// the frame that [`plan`] prints: the mode asked for, under the device table's
/// transaction id unless the request overrides it.
pub proof fn law_the_planned_frame_is_transacted<'a, T: FeatureTransport, C: Clock>(
    entry: &'static DeviceEntry,
    request: ModeRequest,
    before: Session<'a, T, C>,
    after: Session<'a, T, C>,
    written: ModeWrite,
) -> (sent: (RazerReport, Result<RazerReport, HidError>))
    requires
        writes_mode(entry, request, before, after, written),
        before.supports(0x01),
    ensures
        before.transacts(sent.0, &after, sent.1),
        acknowledges(sent.1, written.result),
        hidraw_buffer(sent.0, before.tid()) == seq![0u8] + mode_frame(
            effective_tid(request, *entry),
            request.mode,
        ),
{
    let mode = request.mode;
    let (report, reply) = choose|report: RazerReport, reply: Result<RazerReport, HidError>|
        {
            &&& report.is_command(0x00, 0x04, 0x02, seq![mode.byte(), 0x00])
            &&& #[trigger] before.transacts(report, &after, reply)
            &&& acknowledges(reply, written.result)
        };
    lemma_mode_frame(report, before.tid(), mode);
    (report, reply)
}

/// Every buffer that a mode write sends is the frame that [`plan`] prints,
/// behind report id 0.
pub proof fn law_the_planned_frame_is_the_only_one_sent<'a>(
    entry: &'static DeviceEntry,
    request: ModeRequest,
    before: Session<'a, MockTransport, MockClock>,
    after: Session<'a, MockTransport, MockClock>,
    written: ModeWrite,
    i: int,
)
    requires
        writes_mode(entry, request, before, after, written),
        before.device().sent_buffers().len() <= i < after.device().sent_buffers().len(),
    ensures
        after.device().sent_buffers()[i] == seq![0u8] + mode_frame(
            effective_tid(request, *entry),
            request.mode,
        ),
{
    if before.supports(0x01) {
        let (report, reply) = law_the_planned_frame_is_transacted(
            entry,
            request,
            before,
            after,
            written,
        );
        let _ = law_a_transaction_sends_nothing_else(before, report, after, reply);
    }
}

/// What is printed of the id a response carried, if there was a response.
pub open spec fn echo_text(echoed: Option<u8>, tid: u8) -> Seq<char> {
    match echoed {
        Some(id) => "  echoed txn id    0x"@ + upper_hex(id as nat, 2) + (if id == tid {
            "\n"@
        } else {
            "   <-- DIFFERS\n"@
        }),
        None => Seq::empty(),
    }
}

/// What is printed after the write.
pub open spec fn outcome_text(
    attempts: u32,
    elapsed_ms: Seq<char>,
    echoed: Option<u8>,
    tid: u8,
    result: Result<(), HidError>,
) -> Seq<char> {
    "  attempts         "@ + decimal(attempts as nat) + "\n  elapsed          "@ + elapsed_ms
        + " ms\n"@ + echo_text(echoed, tid) + (match result {
        Ok(_) => "  result           OK\n"@,
        Err(e) => "  result           ERROR: "@ + e.message() + "\n"@,
    })
}

/// What is printed after the write: the attempts, the time it took in
/// milliseconds as it is to be printed, the id the device echoed, and how it
/// ended.
pub fn outcome(
    attempts: u32,
    elapsed_ms: &str,
    echoed: Option<u8>,
    tid: u8,
    result: &Result<(), HidError>,
) -> (text: String)
    ensures
        text@ == outcome_text(attempts, elapsed_ms@, echoed, tid, *result),
{
    let mut out = "  attempts         ".to_owned();
    push_decimal(&mut out, attempts as u64);
    out.append("\n  elapsed          ");
    out.append(elapsed_ms);
    out.append(" ms\n");
    let ghost before = out@;
    match echoed {
        Some(id) => {
            out.append("  echoed txn id    0x");
            push_upper_hex(&mut out, id as u64, 2);
            if id == tid {
                out.append("\n");
            } else {
                out.append("   <-- DIFFERS\n");
            }
        },
        None => {},
    }
    assert(out@ =~= before + echo_text(echoed, tid));
    let ghost told = out@;
    match result {
        Ok(_) => out.append("  result           OK\n"),
        Err(e) => {
            out.append("  result           ERROR: ");
            let message = e.to_string();
            out.append(message.as_str());
            out.append("\n");
        },
    }
    assert(out@ =~= told + (match *result {
        Ok(_) => "  result           OK\n"@,
        Err(e) => "  result           ERROR: "@ + e.message() + "\n"@,
    }));
    out
}

/// Whether a disconnect has shown since the write: both counts are known and
/// the count has grown.
pub open spec fn disconnected(before: Option<u64>, now: Option<u64>) -> bool {
    before is Some && now is Some && now->0 > before->0
}

/// What is printed when a disconnect shows in second number `second`.
pub open spec fn alarm_text(second: u32, before: u64, now: u64) -> Seq<char> {
    "  *** USB DISCONNECT after "@ + decimal(second as nat) + " s (count "@ + decimal(before as nat)
        + " -> "@ + decimal(now as nat)
        + ")\n  *** replug the keyboard. This transaction id is NOT safe.\n"@
}

/// What is printed when the watch begins.
pub fn watching() -> (text: &'static str)
    ensures
        text@ == "\n  watching for 90 s ...\n"@,
{
    "\n  watching for 90 s ...\n"
}

/// What the watch does after a look at the disconnects.
#[derive(Debug, PartialEq, Eq)]
pub enum Watch {
    /// A disconnect has shown: say so and stop.
    Alarm(String),
    /// Look again in a second, which has this number.
    LookAgain(u32),
    /// The window has passed without a disconnect.
    AllClear,
}

/// The second of the next look, if there is one.
pub open spec fn next_look(second: u32, before: Option<u64>, now: Option<u64>) -> Option<u32> {
    if !disconnected(before, now) && second < WATCH_SECONDS {
        Some((second + 1) as u32)
    } else {
        None
    }
}

/// What the watch does in its second number `second`, with the disconnects
/// counted before the write and now.
///
/// It stops with an alarm as soon as the count has grown, and is over once
/// [`WATCH_SECONDS`] seconds have passed without one. The first look is in
/// second 1.
pub fn watch(second: u32, before: Option<u64>, now: Option<u64>) -> (step: Watch)
    ensures
        match step {
            Watch::Alarm(text) => disconnected(before, now) && text@ == alarm_text(
                second,
                before->0,
                now->0,
            ),
            Watch::LookAgain(next) => !disconnected(before, now) && second < WATCH_SECONDS && next
                == second + 1 && next_look(second, before, now) == Some(next),
            Watch::AllClear => !disconnected(before, now) && second >= WATCH_SECONDS,
        },
{
    match (before, now) {
        (Some(b), Some(a)) => {
            if a > b {
                let mut out = "  *** USB DISCONNECT after ".to_owned();
                push_decimal(&mut out, second as u64);
                out.append(" s (count ");
                push_decimal(&mut out, b);
                out.append(" -> ");
                push_decimal(&mut out, a);
                out.append(")\n  *** replug the keyboard. This transaction id is NOT safe.\n");
                return Watch::Alarm(out);
            }
        },
        _ => {},
    }
    if second < WATCH_SECONDS {
        Watch::LookAgain(second + 1)
    } else {
        Watch::AllClear
    }
}

/// The second of the look after a row of counts, if the watch goes that far.
pub open spec fn look_after(before: Option<u64>, counts: Seq<Option<u64>>) -> Option<u32>
    decreases counts.len(),
{
    if counts.len() == 0 {
        Some(1u32)
    } else {
        match look_after(before, counts.drop_last()) {
            Some(second) => next_look(second, before, counts.last()),
            None => None,
        }
    }
}

/// The watch looks once a second for exactly ninety seconds as long as no
/// disconnect shows, and not again after one has shown.
pub proof fn law_the_watch_lasts_ninety_seconds(before: Option<u64>, counts: Seq<Option<u64>>)
    ensures
        (forall|i: int| 0 <= i < counts.len() ==> !disconnected(before, #[trigger] counts[i]))
            ==> look_after(before, counts) == (if counts.len() < WATCH_SECONDS {
            Some((counts.len() + 1) as u32)
        } else {
            None
        }),
        (exists|i: int| 0 <= i < counts.len() && disconnected(before, #[trigger] counts[i]))
            ==> look_after(before, counts) is None,
    decreases counts.len(),
{
    if counts.len() > 0 {
        let front = counts.drop_last();
        law_the_watch_lasts_ninety_seconds(before, front);
        if exists|i: int| 0 <= i < counts.len() && disconnected(before, #[trigger] counts[i]) {
            let i = choose|i: int|
                0 <= i < counts.len() && disconnected(before, #[trigger] counts[i]);
            if i < front.len() {
                assert(disconnected(before, front[i]));
            }
        } else {
            assert forall|i: int| 0 <= i < front.len() implies !disconnected(
                before,
                #[trigger] front[i],
            ) by {
                assert(front[i] == counts[i]);
            }
            assert(counts.last() == counts[counts.len() - 1]);
        }
    }
}

/// What is printed when the watch ends without an alarm.
pub open spec fn all_clear_text(before: Option<u64>, now: Option<u64>) -> Seq<char> {
    (if before is Some && now is Some {
        "  disconnects after:  "@ + decimal(now->0 as nat) + " (was "@ + decimal(before->0 as nat)
            + ") — no reset within 90 s\n  (the observed range is 4-73 s, so this window clears it — but see below)\n"@
    } else {
        Seq::empty()
    }) + "\n  NOTE: one trial is not the experiment. See docs/phase3-experiment.md.\n"@
}

/// What is printed when the watch ends without an alarm.
pub fn all_clear(before: Option<u64>, now: Option<u64>) -> (text: String)
    ensures
        text@ == all_clear_text(before, now),
{
    let mut out = String::new();
    match (before, now) {
        (Some(b), Some(a)) => {
            out.append("  disconnects after:  ");
            push_decimal(&mut out, a);
            out.append(" (was ");
            push_decimal(&mut out, b);
            out.append(
                ") — no reset within 90 s\n  (the observed range is 4-73 s, so this window clears it — but see below)\n",
            );
        },
        _ => {},
    }
    out.append("\n  NOTE: one trial is not the experiment. See docs/phase3-experiment.md.\n");
    assert(out@ =~= all_clear_text(before, now));
    out
}

// ---------------------------------------------------------------------------
// Laws
// ---------------------------------------------------------------------------

/// A transaction id given in the request is the one used, whatever the device
/// table says; without one it is the table's.
pub proof fn law_an_override_wins(request: ModeRequest, entry: DeviceEntry)
    ensures
        request.tid_override is Some ==> effective_tid(request, entry) == request.tid_override->0,
        request.tid_override is None ==> effective_tid(request, entry) == entry.transaction_id,
{
}

/// Each byte is printed as two lower case digits that read back as that byte,
/// in the order of the bytes.
pub proof fn law_hex_prints_two_digits_per_byte(bytes: Seq<u8>, i: int)
    ensures
        hex_text(bytes).len() == 2 * bytes.len(),
        0 <= i < bytes.len() ==> parsed(hex_text(bytes).subrange(2 * i, 2 * i + 2), 16, 0xFF)
            == Ok::<nat, IntFault>(bytes[i] as nat),
        0 <= i < bytes.len() ==> !('A' <= hex_text(bytes)[2 * i] <= 'F') && !('A' <= hex_text(
            bytes,
        )[2 * i + 1] <= 'F'),
    decreases bytes.len(),
{
    if bytes.len() > 0 {
        let front = bytes.drop_last();
        let pair = lower_hex(bytes.last() as nat, 2);
        let text = hex_text(bytes);
        law_hex_prints_two_digits_per_byte(front, i);
        law_hexadecimal_reads_back(bytes.last() as nat, 2, 0xFF);
        law_hexadecimal_keeps_its_case(bytes.last() as nat, 2, 0);
        law_hexadecimal_keeps_its_case(bytes.last() as nat, 2, 1);
        if 0 <= i < front.len() {
            assert(text.subrange(2 * i, 2 * i + 2) =~= hex_text(front).subrange(2 * i, 2 * i + 2));
        } else if i == front.len() {
            assert(text.subrange(2 * i, 2 * i + 2) =~= pair);
        }
    }
}

/// The frame of a mode is a set-mode report under the transaction id: 90 bytes
/// that are zero but for the id, the payload length, the command id, the mode
/// and the checksum, which is right.
pub proof fn law_the_mode_frame(tid: u8, mode: DeviceMode, i: int)
    ensures
        mode_frame(tid, mode).len() == 90,
        mode_frame(tid, mode)[1] == tid,
        mode_frame(tid, mode)[5] == 2,
        mode_frame(tid, mode)[7] == 4,
        mode_frame(tid, mode)[8] == (match mode {
            DeviceMode::Normal => 0u8,
            DeviceMode::Driver => 3u8,
        }),
        checksum_valid(mode_frame(tid, mode)),
        0 <= i < 90 && i != 1 && i != 5 && i != 7 && i != 8 && i != 88 ==> mode_frame(
            tid,
            mode,
        )[i] == 0,
{
    let body = seq![0x00, tid, 0x00, 0x00, 0x00, 0x02, 0x00, 0x04, mode.byte()] + Seq::new(
        79,
        |k: int| 0u8,
    );
    assert(body.subrange(2, 88) =~= mode_frame(tid, mode).subrange(2, 88));
}

/// What is printed before the write begins with the device and the node, names
/// the mode with its byte and the transaction id with where it comes from, warns
/// of 0xFF and of nothing else, and ends with the frame.
pub proof fn law_the_plan_tells_what_is_written(
    entry: DeviceEntry,
    node: Seq<char>,
    request: ModeRequest,
    frame: Seq<char>,
)
    ensures
        ({
            let tid = match request.tid_override {
                Some(given) => given,
                None => entry.transaction_id,
            };
            plan_text(entry, node, request, frame) == (entry.name@ + " (0x"@ + upper_hex(
                entry.pid as nat,
                4,
            ) + ")\n  node             "@ + node) + ("\n  mode             "@ + (match request.mode {
                DeviceMode::Normal => "Normal"@,
                DeviceMode::Driver => "Driver"@,
            }) + " (0x"@ + upper_hex(
                match request.mode {
                    DeviceMode::Normal => 0,
                    DeviceMode::Driver => 3,
                },
                2,
            )) + (")\n  transaction id   0x"@ + upper_hex(tid as nat, 2) + (match request.tid_override {
                Some(_) => "   <-- OVERRIDDEN\n"@,
                None => "   (from device table)\n"@,
            })) + ((if tid == 255 {
                "  *** 0xFF is the value the upstream C driver sends and the value\n  *** this project exists to avoid. Expect a firmware reset.\n"@
            } else {
                Seq::empty()
            }) + "  wire             "@ + frame + "\n"@)
        }),
{
    lemma_plan_grouping(
        entry.name@,
        " (0x"@,
        upper_hex(entry.pid as nat, 4),
        ")\n  node             "@,
        node,
        "\n  mode             "@,
        mode_name(request.mode),
        upper_hex(request.mode.byte() as nat, 2),
        ")\n  transaction id   0x"@,
        upper_hex(effective_tid(request, entry) as nat, 2),
        if request.tid_override is Some {
            "   <-- OVERRIDDEN\n"@
        } else {
            "   (from device table)\n"@
        },
        if effective_tid(request, entry) == 0xFF {
            "  *** 0xFF is the value the upstream C driver sends and the value\n  *** this project exists to avoid. Expect a firmware reset.\n"@
        } else {
            Seq::empty()
        },
        "  wire             "@,
        frame,
        "\n"@,
    );
}

/// The pieces of a plan can be put together in either grouping.
proof fn lemma_plan_grouping(
    a: Seq<char>,
    b: Seq<char>,
    c: Seq<char>,
    d: Seq<char>,
    e: Seq<char>,
    f: Seq<char>,
    g: Seq<char>,
    h: Seq<char>,
    i: Seq<char>,
    j: Seq<char>,
    k: Seq<char>,
    l: Seq<char>,
    m: Seq<char>,
    n: Seq<char>,
    o: Seq<char>,
)
    ensures
        a + b + c + d + e + f + g + b + h + i + j + k + l + m + n + o == (a + b + c + d + e) + (f
            + g + b + h) + (i + j + k) + (l + m + n + o),
{
    lemma_four_more(a + b + c + d + e, f, g, b, h);
    lemma_four_more((a + b + c + d + e) + (f + g + b + h), i, j, k, Seq::empty());
    lemma_four_more((a + b + c + d + e) + (f + g + b + h) + (i + j + k), l, m, n, o);
}

/// Four texts after another, apart or together.
proof fn lemma_four_more(a: Seq<char>, b: Seq<char>, c: Seq<char>, d: Seq<char>, e: Seq<char>)
    ensures
        a + b + c + d + e == a + (b + c + d + e),
        a + b + c + d == a + (b + c + d),
{
    assert(a + b + c + d + e =~= a + (b + c + d + e));
    assert(a + b + c + d =~= a + (b + c + d));
}

/// What is printed after the write gives the attempts, the time, the echoed id
/// where there was a response, marked where it differs from the one sent, and
/// the error where there was one.
pub proof fn law_the_outcome_is_told(
    attempts: u32,
    elapsed_ms: Seq<char>,
    echoed: Option<u8>,
    tid: u8,
    result: Result<(), HidError>,
)
    ensures
        outcome_text(attempts, elapsed_ms, echoed, tid, result) == "  attempts         "@ + decimal(
            attempts as nat,
        ) + "\n  elapsed          "@ + elapsed_ms + " ms\n"@ + (if echoed == Some(tid) {
            "  echoed txn id    0x"@ + upper_hex(tid as nat, 2) + "\n"@
        } else if echoed is Some {
            "  echoed txn id    0x"@ + upper_hex(echoed->0 as nat, 2) + "   <-- DIFFERS\n"@
        } else {
            Seq::empty()
        }) + (if result is Ok {
            "  result           OK\n"@
        } else {
            "  result           ERROR: "@ + result->Err_0.message() + "\n"@
        }),
{
}

/// A disconnect has shown exactly where both counts are known and the later one
/// is higher; a count that fell or could not be read shows none.
pub proof fn law_only_a_higher_count_is_a_disconnect(before: Option<u64>, now: Option<u64>)
    ensures
        before is None || now is None ==> !disconnected(before, now),
        before is Some && now is Some ==> (disconnected(before, now) <==> before->0 < now->0),
        disconnected(before, now) ==> next_look(0, before, now) is None,
{
}

/// The alarm gives the second and both counts.
pub proof fn law_the_alarm_gives_the_counts(second: u32, before: u64, now: u64)
    ensures
        starts_with(
            alarm_text(second, before, now),
            "  *** USB DISCONNECT after "@ + decimal(second as nat) + " s (count "@,
        ),
        contains(
            alarm_text(second, before, now),
            " s (count "@ + decimal(before as nat) + " -> "@ + decimal(now as nat)
                + ")\n  *** replug the keyboard. This transaction id is NOT safe.\n"@,
        ),
{
    let a = "  *** USB DISCONNECT after "@;
    let b = decimal(second as nat);
    let c = " s (count "@;
    let d = decimal(before as nat);
    let e = " -> "@;
    let f = decimal(now as nat);
    let g = ")\n  *** replug the keyboard. This transaction id is NOT safe.\n"@;
    lemma_alarm_grouping(a, b, c, d, e, f, g);
    law_contained_means_cut_out(a + b, c + d + e + f + g, Seq::empty());
}

/// The pieces of an alarm can be put together in either grouping.
proof fn lemma_alarm_grouping(
    a: Seq<char>,
    b: Seq<char>,
    c: Seq<char>,
    d: Seq<char>,
    e: Seq<char>,
    f: Seq<char>,
    g: Seq<char>,
)
    ensures
        a + b + c + d + e + f + g == (a + b) + (c + d + e + f + g) + Seq::empty(),
        starts_with(a + b + c + d + e + f + g, a + b + c),
{
    assert(a + b + c + d + e + f + g =~= (a + b) + (c + d + e + f + g) + Seq::empty());
    assert((a + b + c + d + e + f + g).take((a + b + c).len() as int) =~= a + b + c);
}

/// The counts before and after the watch are told where both are known, and the
/// note about single trials always.
pub proof fn law_the_all_clear_gives_the_counts(before: Option<u64>, now: Option<u64>)
    ensures
        before is Some && now is Some ==> starts_with(
            all_clear_text(before, now),
            "  disconnects after:  "@ + decimal(now->0 as nat) + " (was "@ + decimal(
                before->0 as nat,
            ),
        ),
        before is None || now is None ==> all_clear_text(before, now)
            == "\n  NOTE: one trial is not the experiment. See docs/phase3-experiment.md.\n"@,
        contains(
            all_clear_text(before, now),
            "\n  NOTE: one trial is not the experiment. See docs/phase3-experiment.md.\n"@,
        ),
        before_text(before) == (match before {
            Some(n) => "  disconnects before: "@ + decimal(n as nat) + "\n"@,
            None => Seq::empty(),
        }),
{
    let note = "\n  NOTE: one trial is not the experiment. See docs/phase3-experiment.md.\n"@;
    if before is Some && now is Some {
        let a = "  disconnects after:  "@;
        let b = decimal(now->0 as nat);
        let c = " (was "@;
        let d = decimal(before->0 as nat);
        let e = ") — no reset within 90 s\n  (the observed range is 4-73 s, so this window clears it — but see below)\n"@;
        lemma_note_grouping(a + b + c + d, e, note);
    } else {
        lemma_note_grouping(Seq::empty(), Seq::empty(), note);
        assert(Seq::<char>::empty() + note =~= note);
    }
}

/// A note after a text that starts in a given way.
proof fn lemma_note_grouping(a: Seq<char>, b: Seq<char>, note: Seq<char>)
    ensures
        starts_with(a + b + note, a),
        contains(a + b + note, note),
        contains(Seq::<char>::empty() + note, note),
{
    assert((a + b + note).take(a.len() as int) =~= a);
    assert(a + b + note =~= (a + b) + note + Seq::empty());
    law_contained_means_cut_out(a + b, note, Seq::empty());
    assert(Seq::<char>::empty() + note =~= Seq::<char>::empty() + note + Seq::empty());
    law_contained_means_cut_out(Seq::empty(), note, Seq::empty());
}

}
