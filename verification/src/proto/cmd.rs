//! Command constructors.
//!
//! Each builds one request. None of them sets a transaction id.
use vstd::prelude::*;

use crate::proto::error::ProtoError;
use crate::proto::report::{DeviceMode, LedId, PollRate, RazerReport, Rgb, Storage, ARGS_LEN};

verus! {

/// A zeroed report of the given class, id and payload length with `args` at the
/// front of its argument array.
fn command(command_class: u8, command_id: u8, data_size: u8, args: &[u8]) -> (report: RazerReport)
    requires
        args@.len() <= ARGS_LEN,
    ensures
        report.is_command(command_class, command_id, data_size, args@),
{
    let report = RazerReport::new(command_class, command_id, data_size).with_args(args);
    assert(report.arguments@ =~= args@ + Seq::new((80 - args@.len()) as nat, |i: int| 0u8));
    report
}

/*
 * Standard device commands (command class 0x00)
 */

/// Set the operating mode.
///
/// Class 0x00, id 0x04, `data_size` 0x02; `arguments[0]` = mode,
/// `arguments[1]` = 0x00.
pub fn set_device_mode(mode: DeviceMode) -> (report: RazerReport)
    ensures
        report.is_command(0x00, 0x04, 0x02, seq![mode.byte(), 0x00]),
{
    let args: [u8; 2] = [mode.to_u8(), 0x00];
    assert(args@ =~= seq![mode.byte(), 0x00]);
    command(0x00, 0x04, 0x02, &args)
}

/// Read back the operating mode.
pub fn get_device_mode() -> (report: RazerReport)
    ensures
        report.is_command(0x00, 0x84, 0x02, Seq::empty()),
{
    RazerReport::new(0x00, 0x84, 0x02)
}

/// Read the firmware version.
///
/// The response carries the major in `arguments[0]` and the minor in
/// `arguments[1]`.
pub fn get_firmware_version() -> (report: RazerReport)
    ensures
        report.is_command(0x00, 0x81, 0x02, Seq::empty()),
{
    RazerReport::new(0x00, 0x81, 0x02)
}

/// Read the device serial number.
///
/// The response carries 22 ASCII bytes at `arguments[0..22]`.
pub fn get_serial() -> (report: RazerReport)
    ensures
        report.is_command(0x00, 0x82, 0x16, Seq::empty()),
{
    RazerReport::new(0x00, 0x82, 0x16)
}

/*
 * Extended matrix commands (command class 0x0F)
 */

/// Set LED brightness.
///
/// Class 0x0F, id 0x04, `data_size` 0x03; args `[storage, led, brightness]`.
pub fn set_brightness(storage: Storage, led: LedId, brightness: u8) -> (report: RazerReport)
    ensures
        report.is_command(0x0F, 0x04, 0x03, seq![storage.byte(), led.byte(), brightness]),
{
    let args: [u8; 3] = [storage.to_u8(), led.to_u8(), brightness];
    assert(args@ =~= seq![storage.byte(), led.byte(), brightness]);
    command(0x0F, 0x04, 0x03, &args)
}

/// Read back LED brightness.
///
/// Class 0x0F, id 0x84, `data_size` 0x03; args `[storage, led]`.
///
/// The response puts the brightness in `arguments[2]`, not `arguments[0]`: see
/// [`crate::proto::parse::brightness`].
pub fn get_brightness(storage: Storage, led: LedId) -> (report: RazerReport)
    ensures
        report.is_command(0x0F, 0x84, 0x03, seq![storage.byte(), led.byte()]),
{
    let args: [u8; 2] = [storage.to_u8(), led.to_u8()];
    assert(args@ =~= seq![storage.byte(), led.byte()]);
    command(0x0F, 0x84, 0x03, &args)
}

/// Set the "static colour" effect.
///
/// Class 0x0F, id 0x02, `data_size` 0x09; args
/// `[storage, led, 0x01, 0x00, 0x00, 0x01, r, g, b]`: 0x01 is the effect id, and
/// the purpose of the 0x01 at `arguments[5]` is undocumented.
pub fn set_static_effect(storage: Storage, led: LedId, rgb: Rgb) -> (report: RazerReport)
    ensures
        report.is_command(
            0x0F,
            0x02,
            0x09,
            seq![storage.byte(), led.byte(), 0x01, 0x00, 0x00, 0x01, rgb.r, rgb.g, rgb.b],
        ),
{
    let args: [u8; 9] = [
        storage.to_u8(),
        led.to_u8(),
        0x01,
        0x00,
        0x00,
        0x01,
        rgb.r,
        rgb.g,
        rgb.b,
    ];
    assert(args@ =~= seq![
        storage.byte(),
        led.byte(),
        0x01,
        0x00,
        0x00,
        0x01,
        rgb.r,
        rgb.g,
        rgb.b,
    ]);
    command(0x0F, 0x02, 0x09, &args)
}

/// Set the "none" effect: LEDs off.
///
/// Class 0x0F, id 0x02, `data_size` 0x06; args `[storage, led, 0x00]` with the
/// remaining three payload bytes left zero.
pub fn set_effect_none(storage: Storage, led: LedId) -> (report: RazerReport)
    ensures
        report.is_command(0x0F, 0x02, 0x06, seq![storage.byte(), led.byte(), 0x00]),
{
    let args: [u8; 3] = [storage.to_u8(), led.to_u8(), 0x00];
    assert(args@ =~= seq![storage.byte(), led.byte(), 0x00]);
    command(0x0F, 0x02, 0x06, &args)
}

/*
 * Polling rate: two mutually incompatible encodings
 */

/// Set the polling rate, legacy encoding.
///
/// Class 0x00, id 0x05, `data_size` 0x01; `arguments[0]` = the legacy code.
///
/// # Errors
///
/// [`ProtoError::Malformed`] if the rate has no legacy encoding. No other rate
/// is substituted.
pub fn set_poll_rate_legacy(rate: PollRate) -> (result: Result<RazerReport, ProtoError>)
    ensures
        match result {
            Ok(report) => rate.legacy() is Some && report.is_command(
                0x00,
                0x05,
                0x01,
                seq![rate.legacy()->0],
            ),
            Err(e) => rate.legacy() is None && e == ProtoError::Malformed(
                "poll rate has no legacy encoding",
            ),
        },
{
    match rate.legacy_code() {
        Some(code) => {
            let args: [u8; 1] = [code];
            assert(args@ =~= seq![code]);
            Ok(command(0x00, 0x05, 0x01, &args))
        },
        None => Err(ProtoError::Malformed("poll rate has no legacy encoding")),
    }
}

/// Read back the polling rate, legacy encoding.
///
/// The response carries the code in `arguments[0]`.
pub fn get_poll_rate_legacy() -> (report: RazerReport)
    ensures
        report.is_command(0x00, 0x85, 0x01, Seq::empty()),
{
    RazerReport::new(0x00, 0x85, 0x01)
}

/// Set the polling rate, v2 encoding.
///
/// Class 0x00, id 0x40, `data_size` 0x02; args `[argument, code]`. Some devices
/// want the request sent twice, once with 0x00 and once with 0x01, hence the
/// parameter; the devices in the table take 0x00.
pub fn set_poll_rate_v2(rate: PollRate, argument: u8) -> (report: RazerReport)
    ensures
        report.is_command(0x00, 0x40, 0x02, seq![argument, rate.v2()]),
{
    let args: [u8; 2] = [argument, rate.v2_code()];
    assert(args@ =~= seq![argument, rate.v2()]);
    command(0x00, 0x40, 0x02, &args)
}

/// Read back the polling rate, v2 encoding.
///
/// The response carries the code in `arguments[1]`; the index differs from
/// legacy.
pub fn get_poll_rate_v2() -> (report: RazerReport)
    ensures
        report.is_command(0x00, 0xC0, 0x01, Seq::empty()),
{
    RazerReport::new(0x00, 0xC0, 0x01)
}

}
