//! The command line.
use vstd::prelude::*;
use vstd::string::StringExecFns;

use crate::proto::report::DeviceMode;
use crate::text::{
    chars_of, digit_value, has_prefix, lower_hex, parse_unsigned, parsed, same, starts_with, texts,
    upper_hex, IntFault,
};
use crate::text::laws::{
    law_hexadecimal_keeps_its_case, law_hexadecimal_reads_back, law_numbers_are_read_exactly,
    numeral,
};

verus! {

/// What the command line asks for.
#[derive(Debug, Clone, Copy, PartialEq, Eq, Structural)]
pub enum Command {
    /// Read firmware, serial and mode of every supported device.
    Info,
    /// List the Razer nodes present.
    List,
    /// Write the operating mode.
    SetDeviceMode,
    /// Print the version.
    Version,
    /// Print the usage.
    Usage,
}

/// The command that the first argument names.
pub open spec fn command_of(args: Seq<Seq<char>>) -> Command {
    if args.len() == 0 {
        Command::Usage
    } else if args[0] == "info"@ {
        Command::Info
    } else if args[0] == "list"@ {
        Command::List
    } else if args[0] == "set-device-mode"@ {
        Command::SetDeviceMode
    } else if args[0] == "--version"@ || args[0] == "-V"@ {
        Command::Version
    } else {
        Command::Usage
    }
}

/// The command that the first argument names.
pub fn command(args: &[String]) -> (c: Command)
    ensures
        c == command_of(texts(args@)),
{
    if args.len() == 0 {
        return Command::Usage;
    }
    let first = args[0].as_str();
    assert(texts(args@)[0] == first@);
    if same(first, "info") {
        Command::Info
    } else if same(first, "list") {
        Command::List
    } else if same(first, "set-device-mode") {
        Command::SetDeviceMode
    } else if same(first, "--version") || same(first, "-V") {
        Command::Version
    } else {
        Command::Usage
    }
}

/// A request to write the operating mode.
#[derive(Debug, Clone, Copy, PartialEq, Eq, Structural)]
pub struct ModeRequest {
    /// The mode to write.
    pub mode: DeviceMode,
    /// The transaction id to use in place of the device table's.
    pub tid_override: Option<u8>,
}

/// The first position of `flag` among `args`.
pub open spec fn position_of(args: Seq<Seq<char>>, flag: Seq<char>) -> Option<int>
    decreases args.len(),
{
    if args.len() == 0 {
        None
    } else if args[0] == flag {
        Some(0int)
    } else {
        match position_of(args.skip(1), flag) {
            Some(i) => Some(i + 1),
            None => None,
        }
    }
}

/// A hexadecimal number without its prefix.
pub open spec fn without_prefix(raw: Seq<char>) -> Seq<char> {
    if starts_with(raw, "0x"@) || starts_with(raw, "0X"@) {
        raw.skip(2)
    } else {
        raw
    }
}

/// Whether every character is a hexadecimal digit, and there is one.
pub open spec fn is_hex(digits: Seq<char>) -> bool {
    &&& digits.len() > 0
    &&& forall|i: int| 0 <= i < digits.len() ==> digit_value(#[trigger] digits[i], 16) is Some
}

/// The transaction id that an argument gives, or the complaint about it.
pub open spec fn tid_of(raw: Seq<char>) -> Result<u8, Seq<char>> {
    if raw.len() > 0 && raw[0] == '-' {
        Err("--transaction-id needs a hex value, but got the flag `"@ + raw + "`"@)
    } else if !is_hex(without_prefix(raw)) {
        Err("`"@ + raw + "` is not a hex byte, e.g. 1F or 0x1F"@)
    } else {
        match parsed(without_prefix(raw), 16, 0xFF) {
            Ok(value) => Ok(value as u8),
            Err(_) => Err("number too large to fit in target type"@),
        }
    }
}

/// The request that the arguments after `set-device-mode` make, or the
/// complaint about them.
pub open spec fn mode_request_of(args: Seq<Seq<char>>) -> Result<ModeRequest, Seq<char>> {
    if args.len() == 0 || (args[0] != "normal"@ && args[0] != "driver"@) {
        Err("expected `normal` or `driver`"@)
    } else if position_of(args, "--yes-i-am-at-the-desk"@) is None {
        Err(
            "refusing to write without --yes-i-am-at-the-desk.\n             This command can reset the keyboard's firmware and drop it off the USB\n             bus. Recovery is a physical replug, so a human needs to be present."@,
        )
    } else {
        let mode = if args[0] == "normal"@ {
            DeviceMode::Normal
        } else {
            DeviceMode::Driver
        };
        match position_of(args, "--transaction-id"@) {
            None => Ok(ModeRequest { mode, tid_override: None }),
            Some(i) => if i + 1 >= args.len() {
                Err("--transaction-id needs a value, e.g. --transaction-id 1F"@)
            } else {
                match tid_of(args[i + 1]) {
                    Ok(tid) => Ok(ModeRequest { mode, tid_override: Some(tid) }),
                    Err(complaint) => Err(complaint),
                }
            },
        }
    }
}

/// The first position of `flag` among `args`.
fn position(args: &[String], flag: &str) -> (at: Option<usize>)
    ensures
        match at {
            Some(i) => i < args@.len() && position_of(texts(args@), flag@) == Some(i as int),
            None => position_of(texts(args@), flag@) is None,
        },
{
    let ghost all = texts(args@);
    let mut i: usize = 0;
    assert(all.skip(0) =~= all);
    while i < args.len()
        invariant
            0 <= i <= args@.len(),
            all == texts(args@),
            match position_of(all.skip(i as int), flag@) {
                Some(k) => position_of(all, flag@) == Some(k + i),
                None => position_of(all, flag@) is None,
            },
        decreases args@.len() - i,
    {
        assert(all.skip(i as int)[0] == args@[i as int]@);
        if same(args[i].as_str(), flag) {
            return Some(i);
        }
        assert(all.skip(i as int).skip(1) =~= all.skip(i + 1));
        i = i + 1;
    }
    None
}

/// Whether `v[from..]` is made of hexadecimal digits, and there is one.
fn all_hex(v: &Vec<char>, from: usize) -> (r: bool)
    requires
        from <= v@.len(),
    ensures
        r == is_hex(v@.skip(from as int)),
{
    let ghost digits = v@.skip(from as int);
    if from == v.len() {
        return false;
    }
    let mut i: usize = from;
    while i < v.len()
        invariant
            from <= i <= v@.len(),
            digits == v@.skip(from as int),
            forall|k: int| 0 <= k < i - from ==> digit_value(#[trigger] digits[k], 16) is Some,
        decreases v@.len() - i,
    {
        if !is_hex_digit(v[i]) {
            assert(digits[i - from] == v@[i as int]);
            return false;
        }
        i = i + 1;
    }
    true
}

/// Whether `c` is a hexadecimal digit.
fn is_hex_digit(c: char) -> (r: bool)
    ensures
        r == (digit_value(c, 16) is Some),
{
    let n: u32 = c as u32;
    (48 <= n && n <= 57) || (65 <= n && n <= 70) || (97 <= n && n <= 102)
}

/// Read a transaction id: one hexadecimal byte, with or without a `0x` prefix.
///
/// A flag in its place means the value was forgotten, and is named as such. The
/// prefix is taken off once: `0x0x1F` is not a number.
pub fn parse_transaction_id(raw: &str) -> (result: Result<u8, String>)
    ensures
        match result {
            Ok(tid) => tid_of(raw@) == Ok::<u8, Seq<char>>(tid),
            Err(complaint) => tid_of(raw@) == Err::<u8, Seq<char>>(complaint@),
        },
{
    let v = chars_of(raw);
    if v.len() > 0 && v[0] == '-' {
        let mut complaint =
            "--transaction-id needs a hex value, but got the flag `".to_owned();
        complaint.append(raw);
        complaint.append("`");
        return Err(complaint);
    }
    proof {
        reveal_strlit("0x");
        reveal_strlit("0X");
    }
    let from: usize = if has_prefix(&v, "0x") || has_prefix(&v, "0X") {
        2
    } else {
        0
    };
    assert(v@.skip(from as int) =~= without_prefix(raw@));
    if !all_hex(&v, from) {
        let mut complaint = "`".to_owned();
        complaint.append(raw);
        complaint.append("` is not a hex byte, e.g. 1F or 0x1F");
        return Err(complaint);
    }
    match parse_unsigned(&v, from, 16, 0xFF) {
        Ok(value) => Ok(value as u8),
        Err(_) => Err("number too large to fit in target type".to_owned()),
    }
}

/// Read the arguments after `set-device-mode`.
///
/// The mode comes first. Nothing is written without `--yes-i-am-at-the-desk`.
pub fn parse_mode_request(args: &[String]) -> (result: Result<ModeRequest, String>)
    ensures
        match result {
            Ok(request) => mode_request_of(texts(args@)) == Ok::<ModeRequest, Seq<char>>(request),
            Err(complaint) => mode_request_of(texts(args@)) == Err::<ModeRequest, Seq<char>>(
                complaint@,
            ),
        },
{
    if args.len() == 0 {
        return Err("expected `normal` or `driver`".to_owned());
    }
    assert(texts(args@)[0] == args@[0]@);
    let mode: DeviceMode = if same(args[0].as_str(), "normal") {
        DeviceMode::Normal
    } else if same(args[0].as_str(), "driver") {
        DeviceMode::Driver
    } else {
        return Err("expected `normal` or `driver`".to_owned());
    };
    if position(args, "--yes-i-am-at-the-desk").is_none() {
        return Err(
            "refusing to write without --yes-i-am-at-the-desk.\n             This command can reset the keyboard's firmware and drop it off the USB\n             bus. Recovery is a physical replug, so a human needs to be present.".to_owned(),
        );
    }
    match position(args, "--transaction-id") {
        None => Ok(ModeRequest { mode, tid_override: None }),
        Some(i) => {
            if i == args.len() - 1 {
                return Err("--transaction-id needs a value, e.g. --transaction-id 1F".to_owned());
            }
            assert(texts(args@)[i + 1] == args@[i + 1]@);
            match parse_transaction_id(args[i + 1].as_str()) {
                Ok(tid) => Ok(ModeRequest { mode, tid_override: Some(tid) }),
                Err(complaint) => Err(complaint),
            }
        },
    }
}

/// Nothing is ever written without the confirmation: a request is made only by
/// arguments that hold `--yes-i-am-at-the-desk`.
pub proof fn law_no_write_without_confirmation(args: Seq<Seq<char>>)
    requires
        mode_request_of(args) is Ok,
    ensures
        args.contains("--yes-i-am-at-the-desk"@),
{
    lemma_position_is_there(args, "--yes-i-am-at-the-desk"@);
}

/// A position found holds the flag, and no earlier one does.
proof fn lemma_position_is_there(args: Seq<Seq<char>>, flag: Seq<char>)
    requires
        position_of(args, flag) is Some,
    ensures
        0 <= position_of(args, flag)->0 < args.len(),
        args[position_of(args, flag)->0] == flag,
    decreases args.len(),
{
    if args[0] != flag {
        lemma_position_is_there(args.skip(1), flag);
    }
}

/// The mode of a request is the one named by the first argument, whatever else
/// the arguments hold.
pub proof fn law_the_mode_is_the_one_named(args: Seq<Seq<char>>)
    requires
        mode_request_of(args) is Ok,
    ensures
        args.len() > 0,
        mode_request_of(args)->Ok_0.mode == DeviceMode::Driver <==> args[0] == "driver"@,
        mode_request_of(args)->Ok_0.mode == DeviceMode::Normal <==> args[0] == "normal"@,
        mode_request_of(args)->Ok_0.mode == DeviceMode::Driver || mode_request_of(args)->Ok_0.mode
            == DeviceMode::Normal,
{
    reveal_strlit("normal");
    reveal_strlit("driver");
    assert("normal"@[0] == 'n' && "driver"@[0] == 'd');
}

/// The transaction id of a request is the hexadecimal byte after the first
/// `--transaction-id`, and there is none where that flag is not given.
pub proof fn law_the_transaction_id_is_the_one_given(args: Seq<Seq<char>>) -> (at: int)
    requires
        mode_request_of(args) is Ok,
    ensures
        mode_request_of(args)->Ok_0.tid_override is None <==> !args.contains("--transaction-id"@),
        args.contains("--transaction-id"@) ==> {
            &&& 0 <= at < args.len() - 1
            &&& args[at] == "--transaction-id"@
            &&& forall|i: int| 0 <= i < at ==> #[trigger] args[i] != "--transaction-id"@
            &&& tid_of(args[at + 1]) == Ok::<u8, Seq<char>>(
                mode_request_of(args)->Ok_0.tid_override->0,
            )
        },
{
    lemma_position_is_the_first(args, "--transaction-id"@);
    if position_of(args, "--transaction-id"@) is Some {
        position_of(args, "--transaction-id"@)->0
    } else {
        0
    }
}

/// A request is made exactly by a mode, the confirmation, and a transaction id
/// that is a hexadecimal byte where one is announced at `at`.
pub proof fn law_when_a_request_is_made(args: Seq<Seq<char>>, at: int)
    requires
        args.contains("--transaction-id"@) ==> {
            &&& 0 <= at < args.len()
            &&& args[at] == "--transaction-id"@
            &&& forall|i: int| 0 <= i < at ==> #[trigger] args[i] != "--transaction-id"@
        },
    ensures
        mode_request_of(args) is Ok <==> {
            &&& args.len() > 0
            &&& args[0] == "driver"@ || args[0] == "normal"@
            &&& args.contains("--yes-i-am-at-the-desk"@)
            &&& args.contains("--transaction-id"@) ==> at + 1 < args.len() && tid_of(
                args[at + 1],
            ) is Ok
        },
{
    lemma_position_is_the_first(args, "--transaction-id"@);
    lemma_position_is_the_first(args, "--yes-i-am-at-the-desk"@);
    if position_of(args, "--transaction-id"@) is Some {
        let k = position_of(args, "--transaction-id"@)->0;
        if k < at {
            assert(args[k] != "--transaction-id"@);
        }
        if at < k {
            assert(args[at] != "--transaction-id"@);
        }
    }
}

/// The position of a flag is its first occurrence, and there is one exactly
/// where the flag occurs.
proof fn lemma_position_is_the_first(args: Seq<Seq<char>>, flag: Seq<char>)
    ensures
        position_of(args, flag) is Some <==> args.contains(flag),
        position_of(args, flag) is Some ==> {
            let at = position_of(args, flag)->0;
            &&& 0 <= at < args.len()
            &&& args[at] == flag
            &&& forall|i: int| 0 <= i < at ==> #[trigger] args[i] != flag
        },
    decreases args.len(),
{
    if args.len() > 0 {
        let rest = args.skip(1);
        lemma_position_is_the_first(rest, flag);
        if args[0] == flag {
        } else {
            if rest.contains(flag) {
                let k = choose|k: int| 0 <= k < rest.len() && rest[k] == flag;
                assert(args[k + 1] == flag);
            }
            if args.contains(flag) {
                let k = choose|k: int| 0 <= k < args.len() && args[k] == flag;
                assert(rest[k - 1] == flag);
            }
            if position_of(args, flag) is Some {
                let at = position_of(args, flag)->0;
                assert forall|i: int| 0 <= i < at implies #[trigger] args[i] != flag by {
                    if i > 0 {
                        assert(rest[i - 1] != flag);
                    }
                }
            }
        }
    }
}

/// A byte written in hexadecimal, in either case, with or without a prefix, is
/// read as that byte.
pub proof fn law_a_transaction_id_reads_back(tid: u8, width: nat)
    ensures
        tid_of(upper_hex(tid as nat, width)) == Ok::<u8, Seq<char>>(tid),
        tid_of(lower_hex(tid as nat, width)) == Ok::<u8, Seq<char>>(tid),
        tid_of("0x"@ + upper_hex(tid as nat, width)) == Ok::<u8, Seq<char>>(tid),
        tid_of("0x"@ + lower_hex(tid as nat, width)) == Ok::<u8, Seq<char>>(tid),
        tid_of("0X"@ + upper_hex(tid as nat, width)) == Ok::<u8, Seq<char>>(tid),
        tid_of("0X"@ + lower_hex(tid as nat, width)) == Ok::<u8, Seq<char>>(tid),
{
    law_hexadecimal_reads_back(tid as nat, width, 0xFF);
    lemma_digits_are_a_tid(upper_hex(tid as nat, width), tid);
    lemma_digits_are_a_tid(lower_hex(tid as nat, width), tid);
    assert forall|i: int| 0 <= i < upper_hex(tid as nat, width).len() implies '0'
        <= #[trigger] upper_hex(tid as nat, width)[i] <= '9' || 'A' <= upper_hex(
        tid as nat,
        width,
    )[i] <= 'F' by {
        law_hexadecimal_keeps_its_case(tid as nat, width, i);
    }
    assert forall|i: int| 0 <= i < lower_hex(tid as nat, width).len() implies '0'
        <= #[trigger] lower_hex(tid as nat, width)[i] <= '9' || 'a' <= lower_hex(
        tid as nat,
        width,
    )[i] <= 'f' by {
        law_hexadecimal_keeps_its_case(tid as nat, width, i);
    }
}

/// Hexadecimal digits that read as a byte give it as a transaction id.
proof fn lemma_digits_are_a_tid(digits: Seq<char>, tid: u8)
    ensures
        parsed(digits, 16, 0xFF) == Ok::<nat, IntFault>(tid as nat) && (forall|i: int|
            0 <= i < digits.len() ==> {
                let c = #[trigger] digits[i];
                '0' <= c <= '9' || 'A' <= c <= 'F' || 'a' <= c <= 'f'
            }) ==> {
            &&& tid_of(digits) == Ok::<u8, Seq<char>>(tid)
            &&& tid_of("0x"@ + digits) == Ok::<u8, Seq<char>>(tid)
            &&& tid_of("0X"@ + digits) == Ok::<u8, Seq<char>>(tid)
        },
{
    reveal_strlit("0x");
    reveal_strlit("0X");
    if parsed(digits, 16, 0xFF) == Ok::<nat, IntFault>(tid as nat) && (forall|i: int|
        0 <= i < digits.len() ==> {
            let c = #[trigger] digits[i];
            '0' <= c <= '9' || 'A' <= c <= 'F' || 'a' <= c <= 'f'
        }) {
        assert(digits.len() > 0);
        if digits.len() > 1 {
            assert(digits.take(2)[1] == digits[1]);
            assert("0x"@[1] == 'x' && "0X"@[1] == 'X');
        }
        assert(!starts_with(digits, "0x"@) && !starts_with(digits, "0X"@));
        assert(("0x"@ + digits).skip(2) =~= digits);
        assert(("0X"@ + digits).skip(2) =~= digits);
        assert(("0x"@ + digits).take(2) =~= "0x"@);
        assert(("0X"@ + digits).take(2) =~= "0X"@);
        assert(is_hex(digits));
        assert(without_prefix(digits) == digits);
    }
}

/// Only hexadecimal digits with a value of at most 255 are a transaction id; a
/// sign is not taken.
pub proof fn law_only_a_hex_byte_is_a_transaction_id(raw: Seq<char>)
    requires
        tid_of(raw) is Ok,
    ensures
        ({
            let digits = if raw.len() >= 2 && raw[0] == '0' && (raw[1] == 'x' || raw[1] == 'X') {
                raw.skip(2)
            } else {
                raw
            };
            &&& digits.len() > 0
            &&& forall|i: int|
                0 <= i < digits.len() ==> {
                    let c = #[trigger] digits[i];
                    '0' <= c <= '9' || 'A' <= c <= 'F' || 'a' <= c <= 'f'
                }
            &&& numeral(digits, 16) == tid_of(raw)->Ok_0
        }),
{
    reveal_strlit("0x");
    reveal_strlit("0X");
    if raw.len() >= 2 {
        assert(raw.take(2)[0] == raw[0] && raw.take(2)[1] == raw[1]);
        if raw[0] == '0' && raw[1] == 'x' {
            assert(raw.take(2) =~= "0x"@);
        }
        if raw[0] == '0' && raw[1] == 'X' {
            assert(raw.take(2) =~= "0X"@);
        }
    }
    let digits = without_prefix(raw);
    assert(digit_value(digits[0], 16) is Some);
    law_numbers_are_read_exactly(digits, 16, 0xFF);
    assert forall|i: int| 0 <= i < digits.len() implies {
        let c = #[trigger] digits[i];
        '0' <= c <= '9' || 'A' <= c <= 'F' || 'a' <= c <= 'f'
    } by {
        assert(digit_value(digits[i], 16) is Some);
    }
}

/// Each command is named by its own word, and everything else, no argument
/// included, asks for the usage.
pub proof fn law_each_command_has_its_word(args: Seq<Seq<char>>)
    ensures
        command_of(args) == Command::Info <==> args.len() > 0 && args[0] == "info"@,
        command_of(args) == Command::List <==> args.len() > 0 && args[0] == "list"@,
        command_of(args) == Command::SetDeviceMode <==> args.len() > 0 && args[0]
            == "set-device-mode"@,
        command_of(args) == Command::Version <==> args.len() > 0 && (args[0] == "--version"@
            || args[0] == "-V"@),
{
    reveal_strlit("info");
    reveal_strlit("list");
    reveal_strlit("set-device-mode");
    reveal_strlit("--version");
    reveal_strlit("-V");
    assert("info"@[0] == 'i' && "list"@[0] == 'l' && "set-device-mode"@[0] == 's' && "--version"@[0]
        == '-' && "-V"@[0] == '-');
}

}
