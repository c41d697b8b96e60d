use razer::hid::enumerate::{hidraw_index, sort_by_index};
use razer::hid::sysfs::describe_fault;
use razer::text::{
    chars_of, count_lines_with, find, is_whitespace, less, parse_unsigned, push_decimal,
    push_lower_hex, push_pad_left, push_pad_right, push_signed_decimal, push_upper_hex, same,
    second_word_of, text_of, trimmed, trimmed_end_text, IntFault,
};

#[test]
fn numbers_print_as_std_prints_them() {
    for n in [0u64, 1, 9, 10, 42, 99, 100, 255, 4095, 65_535, u64::MAX] {
        let mut out = String::from(">");
        push_decimal(&mut out, n);
        assert_eq!(out, format!(">{n}"));
        let mut out = String::new();
        push_upper_hex(&mut out, n, 4);
        assert_eq!(out, format!("{n:04X}"));
        let mut out = String::new();
        push_lower_hex(&mut out, n, 2);
        assert_eq!(out, format!("{n:02x}"));
    }
    for n in [0i32, 5, -1, -13, i32::MAX, i32::MIN] {
        let mut out = String::new();
        push_signed_decimal(&mut out, n);
        assert_eq!(out, n.to_string());
    }
}

#[test]
fn padding_counts_characters() {
    for s in ["", "a", "hidraw10", "é", "longer than the column"] {
        let mut out = String::new();
        push_pad_right(&mut out, s, 10);
        assert_eq!(out, format!("{s:<10}"));
        let mut out = String::new();
        push_pad_left(&mut out, s, 6, ' ');
        assert_eq!(out, format!("{s:>6}"));
    }
}

#[test]
fn whitespace_is_the_unicode_property() {
    for n in 0..=0x10_FFFFu32 {
        if let Some(c) = char::from_u32(n) {
            assert_eq!(is_whitespace(c), c.is_whitespace(), "{n:#x}");
        }
    }
}

#[test]
fn trimming_and_words_agree_with_std() {
    for s in [
        "",
        "   ",
        "a",
        " a ",
        "\t GET  /metrics HTTP/1.1\r\n",
        "one",
        "one two",
        "\u{a0}one\u{2003}two three",
        "x \u{85}",
    ] {
        assert_eq!(trimmed(s), s.trim(), "{s:?}");
        assert_eq!(trimmed_end_text(s), s.trim_end(), "{s:?}");
        assert_eq!(
            second_word_of(s),
            s.split_whitespace().nth(1).unwrap_or(""),
            "{s:?}"
        );
    }
}

#[test]
fn text_order_is_the_order_of_str() {
    let words = ["", "a", "ab", "b", "A", "hidraw10", "hidraw2", "é", "z", "\u{10000}", "\u{FFFF}"];
    for a in words {
        for b in words {
            assert_eq!(less(a, b), a < b, "{a:?} {b:?}");
            assert_eq!(same(a, b), a == b, "{a:?} {b:?}");
        }
    }
}

#[test]
fn substrings_are_found_where_they_are() {
    assert!(find("0003:1532:028D.0004", ":028D."));
    assert!(!find("0003:1532:028D.0004", ":028E."));
    assert!(find("abc", ""));
    assert!(!find("", "a"));
    let v = chars_of("hidraw3");
    assert_eq!(text_of(&v, 6, 7), "3");
}

#[test]
fn lines_are_counted_once_each() {
    for log in [
        "",
        "\n",
        "usb 1-2: USB disconnect, device number 5",
        "a\nUSB disconnect\nb\nUSB disconnect USB disconnect\r\n\nUSB disc",
        "USB disconnect\n",
    ] {
        assert_eq!(
            count_lines_with(log, "USB disconnect"),
            log.lines().filter(|l| l.contains("USB disconnect")).count() as u64,
            "{log:?}"
        );
    }
}

#[test]
fn integers_are_read_as_std_reads_them() {
    let texts = [
        "", "+", "-", "-1", "0", "+0", "7", "+7", "007", "4294967295", "4294967296", "99999999999999",
        "12x", "x12", " 1", "1 ", "1F", "ffffffff", "FFFFFFFFF", "++1", "é", "12345678901x",
    ];
    for text in texts {
        for radix in [10u32, 16] {
            let ours = parse_unsigned(&chars_of(text), 0, u64::from(radix), u64::from(u32::MAX));
            match u32::from_str_radix(text, radix) {
                Ok(n) => assert_eq!(ours, Ok(u64::from(n)), "{text:?} in {radix}"),
                Err(e) => {
                    let fault = ours.expect_err("std refuses it");
                    assert_eq!(describe_fault(fault), e.to_string(), "{text:?} in {radix}");
                }
            }
        }
    }
    assert_eq!(parse_unsigned(&chars_of(""), 0, 10, 9), Err(IntFault::Empty));
    assert_eq!(parse_unsigned(&chars_of("g"), 0, 16, 9), Err(IntFault::InvalidDigit));
    assert_eq!(parse_unsigned(&chars_of("A"), 0, 16, 9), Err(IntFault::Overflow));
}

#[test]
fn hidraw_names_rank_by_number_then_name() {
    assert_eq!(hidraw_index("hidraw12"), Some(12));
    assert_eq!(hidraw_index("hidraw+3"), Some(3));
    assert_eq!(hidraw_index("hidraw"), None);
    assert_eq!(hidraw_index("hidraw4294967296"), None);
    assert_eq!(hidraw_index("event3"), None);

    let key = |n: &String| {
        let index: Option<u32> = n.strip_prefix("hidraw").and_then(|d| d.parse().ok());
        (index.is_none(), index, n.clone())
    };
    let mut ours: Vec<String> = [
        "hidraw10", "hidraw2", "hidraw", "zzz", "hidraw02", "hidraw2", "hidraw4294967295", "abc",
        "hidraw1x", "hidraw0",
    ]
    .map(String::from)
    .to_vec();
    let mut theirs = ours.clone();
    sort_by_index(&mut ours);
    theirs.sort_by_key(key);
    assert_eq!(ours, theirs);
    assert_eq!(ours[5], "hidraw4294967295", "a real node comes before any other name");
}
