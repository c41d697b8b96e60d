//! Checking requests and responses, and reading values out of responses.
use vstd::prelude::*;

use crate::proto::error::ProtoError;
use crate::proto::report::{DeviceMode, LedId, PollRate, RazerReport, Status, Storage, ARGS_LEN};
use crate::text::laws::law_trim_end_takes_only_trailing_space;
use crate::text::{is_space, trim_end, trimmed_end_text};

verus! {

/// What is wrong with a report's `data_size`, if anything.
pub open spec fn data_size_fault(report: RazerReport) -> Option<ProtoError> {
    if report.data_size > ARGS_LEN {
        Some(ProtoError::DataSizeTooLarge { got: report.data_size })
    } else {
        None
    }
}

/// What is wrong with a report about to be sent, if anything.
pub open spec fn request_fault(request: RazerReport) -> Option<ProtoError> {
    if data_size_fault(request) is Some {
        data_size_fault(request)
    } else if request.protocol_type != 0 {
        Some(ProtoError::Malformed("protocol_type is not zero"))
    } else {
        None
    }
}

/// What is wrong with `response` as the answer to `request`, if anything: the
/// first disagreement in the order payload sizes, routing fields, status.
pub open spec fn response_fault(request: RazerReport, response: RazerReport) -> Option<ProtoError> {
    if data_size_fault(request) is Some {
        data_size_fault(request)
    } else if data_size_fault(response) is Some {
        data_size_fault(response)
    } else if response.remaining_packets != request.remaining_packets {
        Some(
            ProtoError::ResponseMismatch {
                field: "remaining_packets",
                expected: request.remaining_packets as u32,
                got: response.remaining_packets as u32,
            },
        )
    } else if response.command_class != request.command_class {
        Some(
            ProtoError::ResponseMismatch {
                field: "command_class",
                expected: request.command_class as u32,
                got: response.command_class as u32,
            },
        )
    } else if response.command_id != request.command_id {
        Some(
            ProtoError::ResponseMismatch {
                field: "command_id",
                expected: request.command_id as u32,
                got: response.command_id as u32,
            },
        )
    } else if response.status == Status::Successful || response.status == Status::Busy {
        None
    } else {
        Some(ProtoError::DeviceStatus(response.status))
    }
}

/// `Ok` without a fault, `Err` with it.
pub open spec fn verdict(fault: Option<ProtoError>) -> Result<(), ProtoError> {
    match fault {
        None => Ok(()),
        Some(e) => Err(e),
    }
}

/// Reject a report whose `data_size` cannot fit in the argument array.
fn check_data_size(report: &RazerReport) -> (result: Result<(), ProtoError>)
    ensures
        result == verdict(data_size_fault(*report)),
{
    if report.data_size as usize > ARGS_LEN {
        return Err(ProtoError::DataSizeTooLarge { got: report.data_size });
    }
    Ok(())
}

/// Validate a report before it is sent.
///
/// A report's fields are public, so a caller can hand over a `data_size` that
/// overruns the argument array or a non-zero `protocol_type`. Neither may reach
/// a device.
///
/// # Errors
///
/// - [`ProtoError::DataSizeTooLarge`] if `data_size` is above 80.
/// - [`ProtoError::Malformed`] if `protocol_type` is not zero.
pub fn check_request(request: &RazerReport) -> (result: Result<(), ProtoError>)
    ensures
        result == verdict(request_fault(*request)),
{
    match check_data_size(request) {
        Ok(()) => {},
        Err(e) => return Err(e),
    }
    if request.protocol_type != 0 {
        return Err(ProtoError::Malformed("protocol_type is not zero"));
    }
    Ok(())
}

/// Validate a response against the request that produced it.
///
/// 1. `remaining_packets`, `command_class` and `command_id` must all match the
///    request.
/// 2. The status must then be `Successful` or `Busy`: some commands answer busy
///    and have succeeded.
///
/// The checksum is not checked: real hardware sends frames that would fail.
/// Use [`crate::proto::verify_crc`] separately where it matters.
///
/// # Errors
///
/// - [`ProtoError::DataSizeTooLarge`] if either report declares a `data_size`
///   above 80.
/// - [`ProtoError::ResponseMismatch`] if a routing field disagrees.
/// - [`ProtoError::DeviceStatus`] if the device reported anything other than
///   successful or busy.
pub fn check_response(request: &RazerReport, response: &RazerReport) -> (result: Result<
    (),
    ProtoError,
>)
    ensures
        result == verdict(response_fault(*request, *response)),
{
    match check_data_size(request) {
        Ok(()) => {},
        Err(e) => return Err(e),
    }
    match check_data_size(response) {
        Ok(()) => {},
        Err(e) => return Err(e),
    }
    if response.remaining_packets != request.remaining_packets {
        return Err(
            ProtoError::ResponseMismatch {
                field: "remaining_packets",
                expected: request.remaining_packets as u32,
                got: response.remaining_packets as u32,
            },
        );
    }
    if response.command_class != request.command_class {
        return Err(
            ProtoError::ResponseMismatch {
                field: "command_class",
                expected: request.command_class as u32,
                got: response.command_class as u32,
            },
        );
    }
    if response.command_id != request.command_id {
        return Err(
            ProtoError::ResponseMismatch {
                field: "command_id",
                expected: request.command_id as u32,
                got: response.command_id as u32,
            },
        );
    }
    if response.status.is_ok() {
        Ok(())
    } else {
        Err(ProtoError::DeviceStatus(response.status))
    }
}

/// How many of the first 22 bytes stand before the first NUL.
pub open spec fn serial_len(args: Seq<u8>) -> int
    decreases args.len(),
{
    if args.len() == 0 || args[0] == 0 {
        0
    } else {
        1 + serial_len(args.skip(1))
    }
}

/// The bytes of the serial number: those of the 22-byte window before the first
/// NUL.
pub open spec fn serial_bytes(response: RazerReport) -> Seq<u8> {
    let window = response.arguments@.take(22);
    window.take(serial_len(window))
}

/// ASCII bytes as text.
pub open spec fn ascii_text(bytes: Seq<u8>) -> Seq<char> {
    bytes.map_values(|b: u8| b as char)
}

/// Whether `result` is the serial number in `response`: the text before the
/// first NUL without trailing whitespace, or an error where that is not ASCII.
pub open spec fn serial_reading(response: RazerReport, result: Result<String, ProtoError>) -> bool {
    let bytes = serial_bytes(response);
    match result {
        Ok(text) => {
            &&& forall|i: int| 0 <= i < bytes.len() ==> bytes[i] < 0x80
            &&& text@ == trim_end(ascii_text(bytes))
        },
        Err(e) => {
            &&& exists|i: int| 0 <= i < bytes.len() && bytes[i] >= 0x80
            &&& e == ProtoError::Malformed("serial is not ASCII")
        },
    }
}

/// The 22-byte ASCII serial from `arguments[0..22]`, cut at the first NUL and
/// stripped of trailing whitespace.
///
/// # Errors
///
/// [`ProtoError::Malformed`] if the bytes before the first NUL are not ASCII.
pub fn serial(response: &RazerReport) -> (result: Result<String, ProtoError>)
    ensures
        serial_reading(*response, result),
{
    let ghost window = response.arguments@.take(22);
    let mut end: usize = 0;
    assert(window.skip(0) =~= window);
    while end < 22 && response.arguments[end] != 0
        invariant
            0 <= end <= 22,
            window == response.arguments@.take(22),
            serial_len(window) == end + serial_len(window.skip(end as int)),
        decreases 22 - end,
    {
        assert(window.skip(end as int).skip(1) =~= window.skip(end + 1));
        end = end + 1;
    }
    assert(serial_len(window) == end);
    let ghost bytes = serial_bytes(*response);
    let mut text = String::new();
    let mut i: usize = 0;
    while i < end
        invariant
            0 <= i <= end <= 22,
            bytes == serial_bytes(*response),
            bytes =~= response.arguments@.take(end as int),
            forall|k: int| 0 <= k < i ==> bytes[k] < 0x80,
            text@ =~= ascii_text(bytes.take(i as int)),
        decreases end - i,
    {
        let b: u8 = response.arguments[i];
        if b >= 0x80 {
            assert(bytes[i as int] >= 0x80);
            return Err(ProtoError::Malformed("serial is not ASCII"));
        }
        text.push(b as char);
        i = i + 1;
    }
    assert(bytes.take(end as int) =~= bytes);
    Ok(trimmed_end_text(text.as_str()))
}

/// `(major, minor)` from `arguments[0]` and `arguments[1]`.
///
/// # Errors
///
/// Never fails; the `Result` leaves room for a stricter check.
pub fn firmware_version(response: &RazerReport) -> (result: Result<(u8, u8), ProtoError>)
    ensures
        result == Ok::<(u8, u8), ProtoError>((response.arguments@[0], response.arguments@[1])),
{
    Ok((response.arguments[0], response.arguments[1]))
}

/// `(mode_byte, param_byte)` from `arguments[0]` and `arguments[1]`.
///
/// Returned raw rather than as a [`crate::proto::DeviceMode`] because a device
/// may report the blocked `0x02` mode, and swallowing that would hide it.
///
/// # Errors
///
/// Never fails; the `Result` leaves room for a stricter check.
pub fn device_mode(response: &RazerReport) -> (result: Result<(u8, u8), ProtoError>)
    ensures
        result == Ok::<(u8, u8), ProtoError>((response.arguments@[0], response.arguments@[1])),
{
    Ok((response.arguments[0], response.arguments[1]))
}

/// Brightness from `arguments[2]`, not `arguments[0]`.
///
/// # Errors
///
/// Never fails; the `Result` leaves room for a stricter check.
pub fn brightness(response: &RazerReport) -> (result: Result<u8, ProtoError>)
    ensures
        result == Ok::<u8, ProtoError>(response.arguments@[2]),
{
    Ok(response.arguments[2])
}

/// What the byte `code` stands for in the legacy encoding.
pub open spec fn legacy_reading(code: u8) -> Result<PollRate, ProtoError> {
    match PollRate::of_legacy(code) {
        Some(rate) => Ok(rate),
        None => Err(ProtoError::Malformed("unknown legacy poll rate code")),
    }
}

/// What the byte `code` stands for in the v2 encoding.
pub open spec fn v2_reading(code: u8) -> Result<PollRate, ProtoError> {
    match PollRate::of_v2(code) {
        Some(rate) => Ok(rate),
        None => Err(ProtoError::Malformed("unknown v2 poll rate code")),
    }
}

/// Polling rate from `arguments[0]`, legacy encoding.
///
/// # Errors
///
/// [`ProtoError::Malformed`] if the byte is not a legacy code.
pub fn poll_rate_legacy(response: &RazerReport) -> (result: Result<PollRate, ProtoError>)
    ensures
        result == legacy_reading(response.arguments@[0]),
{
    match PollRate::from_legacy_code(response.arguments[0]) {
        Some(rate) => Ok(rate),
        None => Err(ProtoError::Malformed("unknown legacy poll rate code")),
    }
}

/// Polling rate from `arguments[1]`, v2 encoding.
///
/// The index differs from legacy: index 0 holds the device's echo of the
/// request's argument byte.
///
/// # Errors
///
/// [`ProtoError::Malformed`] if the byte is not a v2 code.
pub fn poll_rate_v2(response: &RazerReport) -> (result: Result<PollRate, ProtoError>)
    ensures
        result == v2_reading(response.arguments@[1]),
{
    match PollRate::from_v2_code(response.arguments[1]) {
        Some(rate) => Ok(rate),
        None => Err(ProtoError::Malformed("unknown v2 poll rate code")),
    }
}

/// Every report that a command constructor builds may be sent: it passes
/// [`check_request`].
pub proof fn law_commands_pass_the_request_check(
    report: RazerReport,
    command_class: u8,
    command_id: u8,
    data_size: u8,
    args: Seq<u8>,
)
    requires
        report.is_command(command_class, command_id, data_size, args),
        data_size <= ARGS_LEN,
    ensures
        request_fault(report) is None,
{
}

/// A response that echoes the request and answers successful or busy is always
/// accepted, whatever its transaction id, protocol type, arguments, checksum
/// and reserved byte are.
pub proof fn law_an_echo_is_accepted(request: RazerReport, response: RazerReport)
    requires
        request.data_size <= ARGS_LEN,
        response.data_size <= ARGS_LEN,
        response.remaining_packets == request.remaining_packets,
        response.command_class == request.command_class,
        response.command_id == request.command_id,
    ensures
        response_fault(request, response) is None <==> (response.status == Status::Successful
            || response.status == Status::Busy),
{
}

/// Reading undoes writing: a value that a command carries is the one that the
/// matching reader takes out of the same argument slots.
pub proof fn law_readers_undo_commands(
    report: RazerReport,
    mode: DeviceMode,
    storage: Storage,
    led: LedId,
    level: u8,
    rate: PollRate,
    argument: u8,
)
    ensures
        report.is_command(0x00, 0x04, 0x02, seq![mode.byte(), 0x00]) ==> DeviceMode::of_byte(
            report.arguments@[0],
        ) == Some(mode),
        report.is_command(0x0F, 0x04, 0x03, seq![storage.byte(), led.byte(), level])
            ==> report.arguments@[2] == level,
        report.is_command(0x00, 0x40, 0x02, seq![argument, rate.v2()]) ==> v2_reading(
            report.arguments@[1],
        ) == Ok::<PollRate, ProtoError>(rate),
        rate.legacy() is Some && report.is_command(0x00, 0x05, 0x01, seq![rate.legacy()->0])
            ==> legacy_reading(report.arguments@[0]) == Ok::<PollRate, ProtoError>(rate),
{
}

/// A response is accepted only as the answer to that very request: it carries
/// the request's `remaining_packets`, class and id, its status byte is that of
/// successful or busy, and neither side declares more than 80 bytes. Every such
/// response is accepted.
pub proof fn law_only_an_echo_is_accepted(request: RazerReport, response: RazerReport)
    ensures
        verdict(response_fault(request, response)) is Ok <==> {
            &&& response.remaining_packets == request.remaining_packets
            &&& response.command_class == request.command_class
            &&& response.command_id == request.command_id
            &&& request.data_size <= 80
            &&& response.data_size <= 80
            &&& response.status == Status::of_byte(0x02) || response.status == Status::of_byte(0x01)
        },
        response_fault(request, response) is None <==> verdict(
            response_fault(request, response),
        ) is Ok,
{
}

/// A refused response is refused with the disagreement: the size that is too
/// large, the field that differs with its two values, or the status. A field is
/// named only where everything before it agrees.
pub proof fn law_a_refusal_names_the_disagreement(request: RazerReport, response: RazerReport)
    requires
        response_fault(request, response) is Some,
    ensures
        verdict(response_fault(request, response)) == Err::<(), ProtoError>(
            response_fault(request, response)->0,
        ),
        match response_fault(request, response)->0 {
            ProtoError::DataSizeTooLarge { got } => {
                &&& got > 80
                &&& request.data_size > 80 ==> got == request.data_size
                &&& request.data_size <= 80 ==> got == response.data_size
            },
            ProtoError::ResponseMismatch { field, expected, got } => {
                &&& request.data_size <= 80
                &&& response.data_size <= 80
                &&& expected != got
                &&& if response.remaining_packets != request.remaining_packets {
                    &&& field@ == "remaining_packets"@
                    &&& expected == request.remaining_packets
                    &&& got == response.remaining_packets
                } else if response.command_class != request.command_class {
                    &&& field@ == "command_class"@
                    &&& expected == request.command_class
                    &&& got == response.command_class
                } else {
                    &&& field@ == "command_id"@
                    &&& expected == request.command_id
                    &&& got == response.command_id
                }
            },
            ProtoError::DeviceStatus(status) => {
                &&& status == response.status
                &&& response.remaining_packets == request.remaining_packets
                &&& response.command_class == request.command_class
                &&& response.command_id == request.command_id
                &&& status.byte() == 0x01 ==> status == Status::Unknown(0x01)
                &&& status.byte() == 0x02 ==> status == Status::Unknown(0x02)
            },
            _ => false,
        },
{
}

/// A request may be sent exactly when it declares at most 80 bytes and protocol
/// type 0, and a refusal says which of the two it is.
pub proof fn law_what_may_be_sent(request: RazerReport)
    ensures
        verdict(request_fault(request)) is Ok <==> request.data_size <= 80 && request.protocol_type
            == 0,
        request_fault(request) is None <==> verdict(request_fault(request)) is Ok,
        match verdict(request_fault(request)) {
            Ok(_) => true,
            Err(ProtoError::DataSizeTooLarge { got }) => got == request.data_size && got > 80,
            Err(ProtoError::Malformed(_)) => request.data_size <= 80 && request.protocol_type != 0,
            Err(_) => false,
        },
{
}

/// The bytes read as the serial number end at the first NUL of the 22-byte
/// window and nowhere earlier.
pub proof fn law_serial_bytes_end_at_the_first_nul(response: RazerReport)
    ensures
        serial_bytes(response).len() <= 22,
        forall|i: int|
            0 <= i < serial_bytes(response).len() ==> #[trigger] response.arguments@[i] != 0,
        serial_bytes(response).len() == 22 || response.arguments@[serial_bytes(
            response,
        ).len() as int] == 0,
        serial_bytes(response) == response.arguments@.take(serial_bytes(response).len() as int),
{
    let window = response.arguments@.take(22);
    lemma_serial_len(window);
    let n = serial_len(window);
    assert(serial_bytes(response) =~= response.arguments@.take(n));
    assert forall|i: int| 0 <= i < n implies #[trigger] response.arguments@[i] != 0 by {
        assert(window[i] == response.arguments@[i]);
    }
    if n < 22 {
        assert(window[n] == response.arguments@[n]);
    }
}

/// The length counts up to the first zero.
proof fn lemma_serial_len(args: Seq<u8>)
    ensures
        0 <= serial_len(args) <= args.len(),
        forall|i: int| 0 <= i < serial_len(args) ==> #[trigger] args[i] != 0,
        serial_len(args) < args.len() ==> args[serial_len(args)] == 0,
    decreases args.len(),
{
    if args.len() > 0 && args[0] != 0 {
        let rest = args.skip(1);
        lemma_serial_len(rest);
        assert forall|i: int| 0 <= i < serial_len(args) implies #[trigger] args[i] != 0 by {
            if i > 0 {
                assert(rest[i - 1] == args[i]);
            }
        }
        if serial_len(args) < args.len() {
            assert(rest[serial_len(rest)] == args[serial_len(args)]);
        }
    }
}

/// Every serial number that stands in a response is read whole: with `n` bytes
/// before the first NUL of the window and no whitespace among the last of them,
/// the text has exactly those `n` characters, each the byte it stands for. Where
/// one of them is not ASCII there is no text.
pub proof fn law_a_serial_is_read_whole(
    response: RazerReport,
    n: int,
    result: Result<String, ProtoError>,
)
    requires
        serial_reading(response, result),
        0 <= n <= 22,
        forall|i: int| 0 <= i < n ==> #[trigger] response.arguments@[i] != 0,
        n == 22 || response.arguments@[n] == 0,
    ensures
        result is Ok <==> forall|i: int| 0 <= i < n ==> #[trigger] response.arguments@[i] < 0x80,
        result is Ok ==> {
            let text = result->Ok_0@;
            &&& text.len() <= n
            &&& forall|i: int|
                0 <= i < text.len() ==> #[trigger] text[i] as int == response.arguments@[i]
            &&& forall|i: int|
                text.len() <= i < n ==> {
                    let b = #[trigger] response.arguments@[i];
                    9 <= b <= 13 || b == 0x20
                }
            &&& text.len() > 0 ==> {
                let b = response.arguments@[text.len() - 1];
                !(9 <= b <= 13) && b != 0x20
            }
        },
{
    law_serial_bytes_end_at_the_first_nul(response);
    let bytes = serial_bytes(response);
    let m = bytes.len() as int;
    if m < n {
        assert(response.arguments@[m] != 0);
    } else if n < m {
        assert(response.arguments@[n] != 0);
    }
    assert(m == n);
    assert forall|i: int| 0 <= i < n implies bytes[i] == #[trigger] response.arguments@[i] by {}
    if result is Ok {
        let whole = ascii_text(bytes);
        let end = law_trim_end_takes_only_trailing_space(whole);
        let text = result->Ok_0@;
        assert(text == whole.take(end));
        assert forall|i: int| 0 <= i < n implies #[trigger] whole[i] as int
            == response.arguments@[i] by {
            assert(bytes[i] < 0x80);
        }
        assert forall|i: int| text.len() <= i < n implies {
            let b = #[trigger] response.arguments@[i];
            9 <= b <= 13 || b == 0x20
        } by {
            assert(is_space(whole[i]));
            assert(bytes[i] < 0x80);
        }
        assert forall|i: int| 0 <= i < n implies #[trigger] response.arguments@[i] < 0x80 by {
            assert(bytes[i] < 0x80);
        }
    } else {
        let i = choose|i: int| 0 <= i < bytes.len() && bytes[i] >= 0x80;
        assert(response.arguments@[i] >= 0x80);
    }
}

/// A polling rate is read from a code exactly when the code is that rate's, and
/// every other code is an error.
pub proof fn law_only_known_rates_are_read(code: u8, rate: PollRate)
    ensures
        v2_reading(code) == Ok::<PollRate, ProtoError>(rate) <==> rate.v2() == code,
        legacy_reading(code) == Ok::<PollRate, ProtoError>(rate) <==> rate.legacy() == Some(code),
        v2_reading(code) is Ok ==> v2_reading(code)->Ok_0.v2() == code,
        legacy_reading(code) is Ok ==> legacy_reading(code)->Ok_0.legacy() == Some(code),
{
}

}
