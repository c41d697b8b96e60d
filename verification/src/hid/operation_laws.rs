//! What the typed operations of a session put on the wire and read back.
use vstd::prelude::*;

use crate::devices::table::PollRateKind;
use crate::hid::error::HidError;
use crate::hid::laws::{
    copies, law_a_transaction_sends_nothing_else, law_buffers_carry_the_request_unchanged,
    law_every_buffer_carries_the_session_id, law_the_first_acceptable_response_is_returned,
};
use crate::hid::mock::{MockClock, MockTransport};
use crate::hid::session::{acknowledges, hidraw_buffer, lifted, Session};
use crate::proto::crc::checksum_valid;
use crate::proto::error::ProtoError;
use crate::proto::parse::{
    law_a_serial_is_read_whole, law_only_known_rates_are_read, request_fault, response_fault,
    serial_reading,
};
use crate::proto::report::{
    law_command_frames, law_poll_rate_codes_are_distinct, DeviceMode, PollRate, RazerReport, Rgb,
};

verus! {

/// The buffer of a command, byte by byte.
pub open spec fn is_command_buffer(
    buf: Seq<u8>,
    tid: u8,
    command_class: u8,
    command_id: u8,
    args: Seq<u8>,
) -> bool {
    &&& buf.len() == 91
    &&& buf[0] == 0
    &&& buf[1] == 0
    &&& buf[2] == tid
    &&& buf[3] == 0
    &&& buf[4] == 0
    &&& buf[5] == 0
    &&& buf[7] == command_class
    &&& buf[8] == command_id
    &&& forall|k: int| 0 <= k < args.len() ==> buf[9 + k] == #[trigger] args[k]
    &&& forall|k: int| 9 + args.len() <= k < 89 ==> #[trigger] buf[k] == 0
    &&& checksum_valid(buf.skip(1))
    &&& buf[90] == 0
}

/// Whether everything sent since is the buffer of one command, at most five
/// times over.
pub open spec fn sent_only_command(
    before: Seq<Seq<u8>>,
    after: Seq<Seq<u8>>,
    tid: u8,
    command_class: u8,
    command_id: u8,
    data_size: u8,
    args: Seq<u8>,
) -> bool {
    &&& before.len() <= after.len() <= before.len() + 5
    &&& after.take(before.len() as int) == before
    &&& forall|i: int|
        before.len() <= i < after.len() ==> is_command_buffer(
            #[trigger] after[i],
            tid,
            command_class,
            command_id,
            args,
        ) && after[i][6] == data_size
}

/// The buffers of a transaction of a command.
proof fn lemma_command_is_sent<'a>(
    session: Session<'a, MockTransport, MockClock>,
    request: RazerReport,
    after: Session<'a, MockTransport, MockClock>,
    reply: Result<RazerReport, HidError>,
    command_class: u8,
    command_id: u8,
    data_size: u8,
    args: Seq<u8>,
)
    requires
        session.transacts(request, &after, reply),
        request.is_command(command_class, command_id, data_size, args),
        args.len() <= 80,
    ensures
        sent_only_command(
            session.device().sent_buffers(),
            after.device().sent_buffers(),
            session.tid(),
            command_class,
            command_id,
            data_size,
            args,
        ),
{
    let tid = session.tid();
    let before = session.device().sent_buffers();
    let buf = hidraw_buffer(request, tid);
    let n = law_a_transaction_sends_nothing_else(session, request, after, reply);
    law_every_buffer_carries_the_session_id(request, tid, tid, tid);
    assert forall|i: int| 0 <= i < 90 implies #[trigger] buf[i + 1] == (if i == 1 {
        tid
    } else {
        request.frame()[i]
    }) by {
        law_buffers_carry_the_request_unchanged(request, tid, i);
    }
    assert forall|i: int| 0 <= i < 88 implies #[trigger] request.frame()[i] == (if i == 5 {
        data_size
    } else if i == 6 {
        command_class
    } else if i == 7 {
        command_id
    } else if 8 <= i < 8 + args.len() {
        args[i - 8]
    } else {
        0
    }) by {
        law_command_frames(request, command_class, command_id, data_size, args, i);
    }
    law_command_frames(request, command_class, command_id, data_size, args, 0);
    assert(buf[0int + 1] == 0);
    assert(buf[1int + 1] == tid);
    assert(buf[2int + 1] == 0);
    assert(buf[3int + 1] == 0);
    assert(buf[4int + 1] == 0);
    assert(buf[5int + 1] == data_size);
    assert(buf[6int + 1] == command_class);
    assert(buf[7int + 1] == command_id);
    assert(buf[89int + 1] == 0);
    assert forall|k: int| 0 <= k < args.len() implies buf[9 + k] == #[trigger] args[k] by {
        assert(buf[(8 + k) + 1] == request.frame()[8 + k]);
    }
    assert forall|k: int| 9 + args.len() <= k < 89 implies #[trigger] buf[k] == 0 by {
        assert(buf[(k - 1) + 1] == request.frame()[k - 1]);
    }
    assert((before + copies(buf, n)).take(before.len() as int) =~= before);
}

/// Whether the device table grants a capability bit.
pub open spec fn granted<'a>(session: Session<'a, MockTransport, MockClock>, bit: u32) -> bool {
    (session.bound_entry().capabilities.0 >> bit) & 1 == 1
}

/// Whether an operation was turned down as unsupported with nothing done.
pub open spec fn turned_down<'a, R>(
    session: Session<'a, MockTransport, MockClock>,
    after: Session<'a, MockTransport, MockClock>,
    result: Result<R, HidError>,
) -> bool {
    &&& result is Err
    &&& result->Err_0 is Unsupported
    &&& result->Err_0->Unsupported_pid == session.bound_entry().pid
    &&& after.device() == session.device()
    &&& after.timer() == session.timer()
    &&& after.attempts() == session.attempts()
    &&& after.echoed() == session.echoed()
}

/// The capability test is the bit of the device table.
proof fn lemma_supports_is_granted<'a>(session: Session<'a, MockTransport, MockClock>)
    ensures
        session.supports(0x01) <==> granted(session, 0),
        session.supports(0x02) <==> granted(session, 1),
        session.supports(0x04) <==> granted(session, 2),
        session.supports(0x08) <==> granted(session, 3),
        session.supports(0x10) <==> granted(session, 4),
        session.supports(0x20) <==> granted(session, 5),
{
    let a = session.bound_entry().capabilities;
    let x = a.0;
    assert((x & 0x01 == 0x01 <==> (x >> 0u32) & 1 == 1) && (x & 0x02 == 0x02 <==> (x >> 1u32) & 1
        == 1) && (x & 0x04 == 0x04 <==> (x >> 2u32) & 1 == 1) && (x & 0x08 == 0x08 <==> (x >> 3u32)
        & 1 == 1) && (x & 0x10 == 0x10 <==> (x >> 4u32) & 1 == 1) && (x & 0x20 == 0x20 <==> (x
        >> 5u32) & 1 == 1)) by (bit_vector);
}

/// Whether the default LED of the device is one the commands know.
pub open spec fn led_is_known<'a>(session: Session<'a, MockTransport, MockClock>) -> bool {
    let led = session.bound_entry().default_led;
    led == 0 || led == 1 || led == 4 || led == 5
}

/// Setting the mode sends class 0x00, id 0x04 with the mode byte and a zero, or
/// nothing where the device has no mode.
pub proof fn law_a_mode_is_written_as_given<'a>(
    session: Session<'a, MockTransport, MockClock>,
    after: Session<'a, MockTransport, MockClock>,
    mode: DeviceMode,
    result: Result<(), HidError>,
)
    requires
        session.writes_device_mode(&after, mode, result),
    ensures
        !granted(session, 0) ==> turned_down(session, after, result),
        granted(session, 0) ==> sent_only_command(
            session.device().sent_buffers(),
            after.device().sent_buffers(),
            session.tid(),
            0x00,
            0x04,
            2,
            seq![mode.byte(), 0],
        ),
{
    lemma_supports_is_granted(session);
    if granted(session, 0) {
        let (request, reply) = choose|request: RazerReport, reply: Result<RazerReport, HidError>|
            {
                &&& request.is_command(0x00, 0x04, 0x02, seq![mode.byte(), 0x00])
                &&& #[trigger] session.transacts(request, &after, reply)
                &&& acknowledges(reply, result)
            };
        lemma_command_is_sent(
            session,
            request,
            after,
            reply,
            0x00,
            0x04,
            2,
            seq![mode.byte(), 0x00],
        );
    }
}

/// Setting the brightness sends class 0x0F, id 0x04 with the variable store, the
/// device's own LED and the very level that was given, or nothing where the
/// device cannot.
pub proof fn law_a_brightness_is_written_as_given<'a>(
    session: Session<'a, MockTransport, MockClock>,
    after: Session<'a, MockTransport, MockClock>,
    brightness: u8,
    result: Result<(), HidError>,
)
    requires
        session.writes_brightness(&after, brightness, result),
    ensures
        !granted(session, 3) || !led_is_known(session) ==> turned_down(session, after, result),
        granted(session, 3) && led_is_known(session) ==> sent_only_command(
            session.device().sent_buffers(),
            after.device().sent_buffers(),
            session.tid(),
            0x0F,
            0x04,
            3,
            seq![1, session.bound_entry().default_led, brightness],
        ),
{
    lemma_supports_is_granted(session);
    if granted(session, 3) && led_is_known(session) {
        let led = session.led_id()->0.byte();
        let (request, reply) = choose|request: RazerReport, reply: Result<RazerReport, HidError>|
            {
                &&& request.is_command(0x0F, 0x04, 0x03, seq![0x01, led, brightness])
                &&& #[trigger] session.transacts(request, &after, reply)
                &&& acknowledges(reply, result)
            };
        lemma_command_is_sent(
            session,
            request,
            after,
            reply,
            0x0F,
            0x04,
            3,
            seq![1, session.bound_entry().default_led, brightness],
        );
    }
}

/// Setting the static effect sends class 0x0F, id 0x02 with the three channels
/// that were given in order, or nothing where the device cannot.
pub proof fn law_a_colour_is_written_as_given<'a>(
    session: Session<'a, MockTransport, MockClock>,
    after: Session<'a, MockTransport, MockClock>,
    rgb: Rgb,
    result: Result<(), HidError>,
)
    requires
        session.writes_static_effect(&after, rgb, result),
    ensures
        !granted(session, 4) || !led_is_known(session) ==> turned_down(session, after, result),
        granted(session, 4) && led_is_known(session) ==> sent_only_command(
            session.device().sent_buffers(),
            after.device().sent_buffers(),
            session.tid(),
            0x0F,
            0x02,
            9,
            seq![1, session.bound_entry().default_led, 1, 0, 0, 1, rgb.r, rgb.g, rgb.b],
        ),
{
    lemma_supports_is_granted(session);
    if granted(session, 4) && led_is_known(session) {
        let led = session.led_id()->0.byte();
        let args = seq![0x01, led, 0x01, 0x00, 0x00, 0x01, rgb.r, rgb.g, rgb.b];
        let (request, reply) = choose|request: RazerReport, reply: Result<RazerReport, HidError>|
            {
                &&& request.is_command(
                    0x0F,
                    0x02,
                    0x09,
                    seq![0x01, led, 0x01, 0x00, 0x00, 0x01, rgb.r, rgb.g, rgb.b],
                )
                &&& #[trigger] session.transacts(request, &after, reply)
                &&& acknowledges(reply, result)
            };
        lemma_command_is_sent(session, request, after, reply, 0x0F, 0x02, 9, args);
    }
}

/// Setting the polling rate sends the command of the device's own family with
/// the code that divides 8000 Hz (v2) or 1000 Hz (legacy) into the rate. A rate
/// that the legacy family cannot express is an error with nothing sent, never
/// another rate.
pub proof fn law_a_poll_rate_is_written_as_given<'a>(
    session: Session<'a, MockTransport, MockClock>,
    after: Session<'a, MockTransport, MockClock>,
    rate: PollRate,
    result: Result<(), HidError>,
) -> (code: u8)
    requires
        session.writes_poll_rate(&after, rate, result),
    ensures
        !granted(session, 5) ==> turned_down(session, after, result),
        granted(session, 5) && session.bound_entry().poll_rate_kind == PollRateKind::V2 ==> {
            &&& code * rate.rate() == 8000
            &&& sent_only_command(
                session.device().sent_buffers(),
                after.device().sent_buffers(),
                session.tid(),
                0x00,
                0x40,
                2,
                seq![0, code],
            )
        },
        granted(session, 5) && session.bound_entry().poll_rate_kind == PollRateKind::Legacy
            && rate.legacy() is Some ==> {
            &&& code * rate.rate() == 1000
            &&& sent_only_command(
                session.device().sent_buffers(),
                after.device().sent_buffers(),
                session.tid(),
                0x00,
                0x05,
                1,
                seq![code],
            )
        },
        granted(session, 5) && session.bound_entry().poll_rate_kind == PollRateKind::Legacy
            && rate.legacy() is None ==> {
            &&& result is Err
            &&& result->Err_0 is Proto
            &&& after.device() == session.device()
            &&& after.timer() == session.timer()
        },
{
    lemma_supports_is_granted(session);
    law_poll_rate_codes_are_distinct(rate, rate);
    let v2 = session.bound_entry().poll_rate_kind == PollRateKind::V2;
    if granted(session, 5) && (v2 || rate.legacy() is Some) {
        let (request, reply) = choose|request: RazerReport, reply: Result<RazerReport, HidError>|
            {
                &&& match session.bound_entry().poll_rate_kind {
                    PollRateKind::V2 => request.is_command(
                        0x00,
                        0x40,
                        0x02,
                        seq![0x00, rate.v2()],
                    ),
                    PollRateKind::Legacy => request.is_command(
                        0x00,
                        0x05,
                        0x01,
                        seq![rate.legacy()->0],
                    ),
                }
                &&& #[trigger] session.transacts(request, &after, reply)
                &&& acknowledges(reply, result)
            };
        if v2 {
            lemma_command_is_sent(
                session,
                request,
                after,
                reply,
                0x00,
                0x40,
                2,
                seq![0x00, rate.v2()],
            );
        } else {
            lemma_command_is_sent(
                session,
                request,
                after,
                reply,
                0x00,
                0x05,
                1,
                seq![rate.legacy()->0],
            );
        }
    }
    if v2 {
        rate.v2()
    } else {
        rate.legacy()->0
    }
}

/// Whether the device is about to answer a command with `response`, and the
/// answer echoes that command with a status byte of 1 or 2.
pub open spec fn will_answer(
    device: MockTransport,
    command_class: u8,
    command_id: u8,
    response: RazerReport,
) -> bool {
    &&& device.failing() is None
    &&& device.queued().len() > 0
    &&& response.decodes(device.queued()[0].skip(1))
    &&& device.queued()[0][1] == 1 || device.queued()[0][1] == 2
    &&& device.queued()[0].len() == 91
    &&& response.remaining_packets == 0
    &&& response.command_class == command_class
    &&& response.command_id == command_id
    &&& response.data_size <= 80
}

/// A command that is answered at once gets that answer.
proof fn lemma_gets_its_answer<'a>(
    session: Session<'a, MockTransport, MockClock>,
    request: RazerReport,
    after: Session<'a, MockTransport, MockClock>,
    reply: Result<RazerReport, HidError>,
    response: RazerReport,
)
    requires
        session.transacts(request, &after, reply),
        request_fault(request) is None,
        request.remaining_packets == 0,
        will_answer(session.device(), request.command_class, request.command_id, response),
    ensures
        reply == Ok::<RazerReport, HidError>(response),
{
    assert(response_fault(request, response) is None);
    law_the_first_acceptable_response_is_returned(session, request, after, reply, seq![response]);
}

/// The firmware version that is read is bytes 8 and 9 of the device's answer,
/// and only the read command is sent for it.
pub proof fn law_a_firmware_version_is_read_as_answered<'a>(
    session: Session<'a, MockTransport, MockClock>,
    after: Session<'a, MockTransport, MockClock>,
    result: Result<(u8, u8), HidError>,
    response: RazerReport,
)
    requires
        session.reads_firmware_version(&after, result),
    ensures
        !granted(session, 1) ==> turned_down(session, after, result),
        granted(session, 1) ==> sent_only_command(
            session.device().sent_buffers(),
            after.device().sent_buffers(),
            session.tid(),
            0x00,
            0x81,
            2,
            Seq::empty(),
        ),
        granted(session, 1) && will_answer(session.device(), 0x00, 0x81, response) ==> result == Ok::<
            (u8, u8),
            HidError,
        >((response.arguments@[0], response.arguments@[1])),
{
    lemma_supports_is_granted(session);
    if granted(session, 1) {
        let (request, reply) = choose|request: RazerReport, reply: Result<RazerReport, HidError>|
            {
                &&& request.is_command(0x00, 0x81, 0x02, Seq::empty())
                &&& #[trigger] session.transacts(request, &after, reply)
                &&& result == (match reply {
                    Ok(response) => Ok((response.arguments@[0], response.arguments@[1])),
                    Err(e) => Err(e),
                })
            };
        lemma_command_is_sent(session, request, after, reply, 0x00, 0x81, 2, Seq::empty());
        if will_answer(session.device(), 0x00, 0x81, response) {
            lemma_gets_its_answer(session, request, after, reply, response);
        }
    }
}

/// The operating mode that is read is bytes 8 and 9 of the device's answer, and
/// only the read command is sent for it.
pub proof fn law_a_mode_is_read_as_answered<'a>(
    session: Session<'a, MockTransport, MockClock>,
    after: Session<'a, MockTransport, MockClock>,
    result: Result<(u8, u8), HidError>,
    response: RazerReport,
)
    requires
        session.reads_device_mode(&after, result),
    ensures
        !granted(session, 0) ==> turned_down(session, after, result),
        granted(session, 0) ==> sent_only_command(
            session.device().sent_buffers(),
            after.device().sent_buffers(),
            session.tid(),
            0x00,
            0x84,
            2,
            Seq::empty(),
        ),
        granted(session, 0) && will_answer(session.device(), 0x00, 0x84, response) ==> result == Ok::<
            (u8, u8),
            HidError,
        >((response.arguments@[0], response.arguments@[1])),
{
    lemma_supports_is_granted(session);
    if granted(session, 0) {
        let (request, reply) = choose|request: RazerReport, reply: Result<RazerReport, HidError>|
            {
                &&& request.is_command(0x00, 0x84, 0x02, Seq::empty())
                &&& #[trigger] session.transacts(request, &after, reply)
                &&& result == (match reply {
                    Ok(response) => Ok((response.arguments@[0], response.arguments@[1])),
                    Err(e) => Err(e),
                })
            };
        lemma_command_is_sent(session, request, after, reply, 0x00, 0x84, 2, Seq::empty());
        if will_answer(session.device(), 0x00, 0x84, response) {
            lemma_gets_its_answer(session, request, after, reply, response);
        }
    }
}

/// The serial number that is read is the text of the device's answer: with `n`
/// bytes before the first NUL of the first 22, all ASCII and the last no
/// whitespace, it has exactly those `n` characters. Only the read command is
/// sent for it.
pub proof fn law_a_serial_is_read_as_answered<'a>(
    session: Session<'a, MockTransport, MockClock>,
    after: Session<'a, MockTransport, MockClock>,
    result: Result<String, HidError>,
    response: RazerReport,
    n: int,
)
    requires
        session.reads_serial(&after, result),
        0 < n <= 22,
        forall|i: int| 0 <= i < n ==> 0 < #[trigger] response.arguments@[i] < 0x80,
        n == 22 || response.arguments@[n] == 0,
        0x20 < response.arguments@[n - 1],
    ensures
        !granted(session, 2) ==> turned_down(session, after, result),
        granted(session, 2) ==> sent_only_command(
            session.device().sent_buffers(),
            after.device().sent_buffers(),
            session.tid(),
            0x00,
            0x82,
            0x16,
            Seq::empty(),
        ),
        granted(session, 2) && will_answer(session.device(), 0x00, 0x82, response) ==> {
            &&& result is Ok
            &&& result->Ok_0@.len() == n
            &&& forall|i: int|
                0 <= i < n ==> #[trigger] result->Ok_0@[i] as int == response.arguments@[i]
        },
{
    lemma_supports_is_granted(session);
    if granted(session, 2) {
        let (request, reply) = choose|request: RazerReport, reply: Result<RazerReport, HidError>|
            {
                &&& request.is_command(0x00, 0x82, 0x16, Seq::empty())
                &&& #[trigger] session.transacts(request, &after, reply)
                &&& match reply {
                    Ok(response) => exists|read: Result<String, ProtoError>| #[trigger]
                        serial_reading(response, read) && result == lifted(read),
                    Err(e) => result == Err::<String, HidError>(e),
                }
            };
        lemma_command_is_sent(session, request, after, reply, 0x00, 0x82, 0x16, Seq::empty());
        if will_answer(session.device(), 0x00, 0x82, response) {
            lemma_gets_its_answer(session, request, after, reply, response);
            let read = choose|read: Result<String, ProtoError>| #[trigger]
                serial_reading(response, read) && result == lifted(read);
            law_a_serial_is_read_whole(response, n, read);
            if read is Ok && read->Ok_0@.len() < n {
                let b = response.arguments@[n - 1];
                assert(9 <= b <= 13 || b == 0x20);
            }
        }
    }
}

/// The brightness that is read is byte 10 of the device's answer, and only the
/// read command for the device's own LED is sent for it.
pub proof fn law_a_brightness_is_read_as_answered<'a>(
    session: Session<'a, MockTransport, MockClock>,
    after: Session<'a, MockTransport, MockClock>,
    result: Result<u8, HidError>,
    response: RazerReport,
)
    requires
        session.reads_brightness(&after, result),
    ensures
        !granted(session, 3) || !led_is_known(session) ==> turned_down(session, after, result),
        granted(session, 3) && led_is_known(session) ==> sent_only_command(
            session.device().sent_buffers(),
            after.device().sent_buffers(),
            session.tid(),
            0x0F,
            0x84,
            3,
            seq![1, session.bound_entry().default_led],
        ),
        granted(session, 3) && led_is_known(session) && will_answer(
            session.device(),
            0x0F,
            0x84,
            response,
        ) ==> result == Ok::<u8, HidError>(response.arguments@[2]),
{
    lemma_supports_is_granted(session);
    if granted(session, 3) && led_is_known(session) {
        let led = session.led_id()->0.byte();
        let (request, reply) = choose|request: RazerReport, reply: Result<RazerReport, HidError>|
            {
                &&& request.is_command(0x0F, 0x84, 0x03, seq![0x01, led])
                &&& #[trigger] session.transacts(request, &after, reply)
                &&& result == (match reply {
                    Ok(response) => Ok(response.arguments@[2]),
                    Err(e) => Err(e),
                })
            };
        lemma_command_is_sent(
            session,
            request,
            after,
            reply,
            0x0F,
            0x84,
            3,
            seq![1, session.bound_entry().default_led],
        );
        if will_answer(session.device(), 0x0F, 0x84, response) {
            lemma_gets_its_answer(session, request, after, reply, response);
        }
    }
}

/// The polling rate that is read is the one whose code stands in the device's
/// answer, in the slot of the device's own family: the rate times the code is
/// 8000 Hz (v2, second argument) or 1000 Hz (legacy, first argument). A code
/// that stands for no rate is an error.
pub proof fn law_a_poll_rate_is_read_as_answered<'a>(
    session: Session<'a, MockTransport, MockClock>,
    after: Session<'a, MockTransport, MockClock>,
    result: Result<PollRate, HidError>,
    response: RazerReport,
    rate: PollRate,
)
    requires
        session.reads_poll_rate(&after, result),
    ensures
        !granted(session, 5) ==> turned_down(session, after, result),
        granted(session, 5) && session.bound_entry().poll_rate_kind == PollRateKind::V2 ==> {
            &&& sent_only_command(
                session.device().sent_buffers(),
                after.device().sent_buffers(),
                session.tid(),
                0x00,
                0xC0,
                1,
                Seq::empty(),
            )
            &&& will_answer(session.device(), 0x00, 0xC0, response) ==> {
                &&& result is Ok ==> result->Ok_0.rate() * response.arguments@[1] == 8000
                &&& rate.v2() == response.arguments@[1] ==> result == Ok::<
                    PollRate,
                    HidError,
                >(rate)
            }
        },
        granted(session, 5) && session.bound_entry().poll_rate_kind == PollRateKind::Legacy ==> {
            &&& sent_only_command(
                session.device().sent_buffers(),
                after.device().sent_buffers(),
                session.tid(),
                0x00,
                0x85,
                1,
                Seq::empty(),
            )
            &&& will_answer(session.device(), 0x00, 0x85, response) ==> {
                &&& result is Ok ==> result->Ok_0.rate() * response.arguments@[0] == 1000
                &&& rate.legacy() == Some(response.arguments@[0]) ==> result == Ok::<
                    PollRate,
                    HidError,
                >(rate)
            }
        },
{
    lemma_supports_is_granted(session);
    if granted(session, 5) {
        let v2 = session.bound_entry().poll_rate_kind == PollRateKind::V2;
        let id: u8 = if v2 { 0xC0 } else { 0x85 };
        let (request, reply) = choose|request: RazerReport, reply: Result<RazerReport, HidError>|
            {
                &&& match session.bound_entry().poll_rate_kind {
                    PollRateKind::V2 => request.is_command(0x00, 0xC0, 0x01, Seq::empty()),
                    PollRateKind::Legacy => request.is_command(0x00, 0x85, 0x01, Seq::empty()),
                }
                &&& #[trigger] session.transacts(request, &after, reply)
                &&& result == (match reply {
                    Ok(response) => lifted(
                        crate::hid::session::poll_rate_in(
                            session.bound_entry().poll_rate_kind,
                            response,
                        ),
                    ),
                    Err(e) => Err(e),
                })
            };
        lemma_command_is_sent(session, request, after, reply, 0x00, id, 1, Seq::empty());
        if will_answer(session.device(), 0x00, id, response) {
            lemma_gets_its_answer(session, request, after, reply, response);
            let code = if v2 { response.arguments@[1] } else { response.arguments@[0] };
            law_only_known_rates_are_read(code, rate);
            law_poll_rate_codes_are_distinct(rate, rate);
            if result is Ok {
                law_only_known_rates_are_read(code, result->Ok_0);
                law_poll_rate_codes_are_distinct(result->Ok_0, rate);
            }
        }
    }
}

}
