//! What holds of numbers, words, lines and searches in text.
use vstd::prelude::*;

use crate::text::{
    contains, decimal, differs_below, digit_value, digits_value, filler, hexadecimal, is_space,
    line_len, lines_with, lower_hex, matches_at, pad_left, pad_right, parsed, second_word,
    signed_decimal, text_lt, trim, trim_end, trim_start, upper_hex, word_len, IntFault,
};

verus! {

// ---------------------------------------------------------------------------
// Numbers
// ---------------------------------------------------------------------------

/// A number printed in decimal reads back as itself, and is made of decimal
/// digits without a needless zero in front.
pub proof fn law_decimal_reads_back(n: nat, max: nat)
    requires
        n <= max,
    ensures
        parsed(decimal(n), 10, max) == Ok::<nat, IntFault>(n),
        decimal(n).len() > 0,
        forall|i: int| 0 <= i < decimal(n).len() ==> 48 <= #[trigger] decimal(n)[i] as int <= 57,
        n > 0 ==> decimal(n)[0] != '0',
{
    lemma_decimal_value(n, max);
}

/// The digits of a decimal number.
proof fn lemma_decimal_value(n: nat, max: nat)
    requires
        n <= max,
    ensures
        digits_value(decimal(n), 10, max) == Ok::<nat, IntFault>(n),
        decimal(n).len() > 0,
        forall|i: int| 0 <= i < decimal(n).len() ==> 48 <= #[trigger] decimal(n)[i] as int <= 57,
        n > 0 ==> decimal(n)[0] != '0',
    decreases n,
{
    if n < 10 {
        assert(decimal(n).drop_last() =~= Seq::empty());
        assert(digits_value(decimal(n).drop_last(), 10, max) == Ok::<nat, IntFault>(0));
    } else {
        lemma_decimal_value(n / 10, max);
        assert(decimal(n).drop_last() =~= decimal(n / 10));
    }
}

/// A decimal number with zeros in front reads back as itself, and four digits
/// are enough below ten thousand.
pub proof fn law_padded_decimal_reads_back(n: nat, width: nat, max: nat)
    requires
        n <= max,
    ensures
        parsed(pad_left(decimal(n), width, '0'), 10, max) == Ok::<nat, IntFault>(n),
        pad_left(decimal(n), width, '0').len() >= width,
        n < 10 ==> decimal(n).len() == 1,
        n < 10000 ==> decimal(n).len() <= 4,
        n < 10000 && width == 4 ==> pad_left(decimal(n), width, '0').len() == 4,
{
    lemma_decimal_value(n, max);
    lemma_zeros_in_front(decimal(n), width, 10, max);
    reveal_with_fuel(decimal, 4);
}

/// A number printed in hexadecimal, in either case and padded or not, reads back
/// as itself.
pub proof fn law_hexadecimal_reads_back(n: nat, width: nat, max: nat)
    requires
        n <= max,
    ensures
        parsed(upper_hex(n, width), 16, max) == Ok::<nat, IntFault>(n),
        parsed(lower_hex(n, width), 16, max) == Ok::<nat, IntFault>(n),
        upper_hex(n, width).len() >= width,
        lower_hex(n, width).len() >= width,
{
    lemma_hex_value(n, true, max);
    lemma_hex_value(n, false, max);
    lemma_zeros_in_front(hexadecimal(n, true), width, 16, max);
    lemma_zeros_in_front(hexadecimal(n, false), width, 16, max);
}

/// The digits of a hexadecimal number.
proof fn lemma_hex_value(n: nat, upper: bool, max: nat)
    requires
        n <= max,
    ensures
        digits_value(hexadecimal(n, upper), 16, max) == Ok::<nat, IntFault>(n),
        hexadecimal(n, upper).len() > 0,
        hexadecimal(n, upper)[0] != '+',
    decreases n,
{
    let s = hexadecimal(n, upper);
    if n < 16 {
        assert(s.drop_last() =~= Seq::empty());
        assert(digits_value(s.drop_last(), 16, max) == Ok::<nat, IntFault>(0));
    } else {
        lemma_hex_value(n / 16, upper, max);
        assert(s.drop_last() =~= hexadecimal(n / 16, upper));
    }
}

/// Zeros in front do not change a number.
proof fn lemma_zeros_in_front(s: Seq<char>, width: nat, radix: nat, max: nat)
    requires
        2 <= radix <= 36,
        s.len() > 0,
        s[0] != '+',
        digits_value(s, radix, max) is Ok,
    ensures
        digits_value(pad_left(s, width, '0'), radix, max) == digits_value(s, radix, max),
        pad_left(s, width, '0').len() >= width,
        pad_left(s, width, '0').len() >= s.len(),
        pad_left(s, width, '0')[0] != '+',
{
    let zeros = filler(s.len(), width, '0');
    lemma_zeros_then(zeros, s, radix, max);
    assert(zeros.len() > 0 ==> pad_left(s, width, '0')[0] == zeros[0]);
    assert(zeros.len() == 0 ==> pad_left(s, width, '0') =~= s);
}

/// A row of zeros before some digits.
proof fn lemma_zeros_then(zeros: Seq<char>, s: Seq<char>, radix: nat, max: nat)
    requires
        2 <= radix <= 36,
        forall|i: int| 0 <= i < zeros.len() ==> zeros[i] == '0',
        digits_value(s, radix, max) is Ok,
    ensures
        digits_value(zeros + s, radix, max) == digits_value(s, radix, max),
    decreases zeros.len() + s.len(),
{
    let whole = zeros + s;
    if s.len() > 0 {
        assert(whole.drop_last() =~= zeros + s.drop_last());
        lemma_zeros_then(zeros, s.drop_last(), radix, max);
    } else if zeros.len() > 0 {
        assert(whole =~= zeros);
        assert(whole.drop_last() =~= zeros.drop_last() + s);
        lemma_zeros_then(zeros.drop_last(), s, radix, max);
        assert(whole.last() == '0');
        let v = digits_value(whole.drop_last(), radix, max)->Ok_0;
        assert(v * radix == 0) by (nonlinear_arith)
            requires
                v == 0,
        ;
    } else {
        assert(whole =~= s);
    }
}

/// A number below zero is a minus sign and the decimal digits of its opposite.
pub proof fn law_signs(n: int, max: nat)
    requires
        -n <= max,
        n <= max,
    ensures
        n >= 0 ==> parsed(signed_decimal(n), 10, max) == Ok::<nat, IntFault>(n as nat),
        n < 0 ==> signed_decimal(n)[0] == '-' && parsed(signed_decimal(n).skip(1), 10, max) == Ok::<
            nat,
            IntFault,
        >((-n) as nat),
{
    if n < 0 {
        reveal_strlit("-");
        law_decimal_reads_back((-n) as nat, max);
        assert(signed_decimal(n).skip(1) =~= decimal((-n) as nat));
    } else {
        law_decimal_reads_back(n as nat, max);
    }
}

/// The value of a row of digits, without a limit.
pub open spec fn numeral(s: Seq<char>, radix: nat) -> nat
    decreases s.len(),
{
    if s.len() == 0 {
        0
    } else {
        numeral(s.drop_last(), radix) * radix + (match digit_value(s.last(), radix) {
            Some(d) => d,
            None => 0,
        })
    }
}

/// What follows an optional plus sign.
pub open spec fn unsigned_part(s: Seq<char>) -> Seq<char> {
    if s.len() > 1 && s[0] == '+' {
        s.skip(1)
    } else {
        s
    }
}

/// A text is read as a number exactly when it is not empty, every character
/// after an optional plus sign is a digit, and the number they write fits; that
/// is then the number read.
pub proof fn law_numbers_are_read_exactly(s: Seq<char>, radix: nat, max: nat)
    requires
        2 <= radix <= 36,
    ensures
        parsed(s, radix, max) is Ok <==> {
            &&& s.len() > 0
            &&& forall|i: int|
                0 <= i < unsigned_part(s).len() ==> digit_value(
                    #[trigger] unsigned_part(s)[i],
                    radix,
                ) is Some
            &&& numeral(unsigned_part(s), radix) <= max
        },
        parsed(s, radix, max) is Ok ==> parsed(s, radix, max)->Ok_0 == numeral(
            unsigned_part(s),
            radix,
        ),
        parsed(s, radix, max) == Err::<nat, IntFault>(IntFault::Empty) <==> s.len() == 0,
{
    lemma_digits_are_read_exactly(unsigned_part(s), radix, max);
}

/// The same for digits alone.
proof fn lemma_digits_are_read_exactly(s: Seq<char>, radix: nat, max: nat)
    requires
        2 <= radix <= 36,
    ensures
        digits_value(s, radix, max) is Ok <==> {
            &&& forall|i: int| 0 <= i < s.len() ==> digit_value(#[trigger] s[i], radix) is Some
            &&& numeral(s, radix) <= max
        },
        digits_value(s, radix, max) is Ok ==> digits_value(s, radix, max)->Ok_0 == numeral(
            s,
            radix,
        ),
        digits_value(s, radix, max) != Err::<nat, IntFault>(IntFault::Empty),
    decreases s.len(),
{
    if s.len() > 0 {
        let front = s.drop_last();
        lemma_digits_are_read_exactly(front, radix, max);
        let v = numeral(front, radix);
        assert(v <= v * radix) by (nonlinear_arith)
            requires
                radix >= 2,
        ;
        if forall|i: int| 0 <= i < s.len() ==> digit_value(#[trigger] s[i], radix) is Some {
            assert forall|i: int| 0 <= i < front.len() implies digit_value(
                #[trigger] front[i],
                radix,
            ) is Some by {
                assert(front[i] == s[i]);
            }
            assert(digit_value(s[s.len() - 1], radix) is Some);
        } else {
            let i = choose|i: int|
                0 <= i < s.len() && digit_value(#[trigger] s[i], radix) is None;
            if i < front.len() {
                assert(front[i] == s[i]);
            }
        }
    }
}

/// The digits are 0 to 9, then the letters of either case, as far as the radix
/// goes; nothing else is a digit.
pub proof fn law_the_digits(c: char, radix: nat)
    requires
        2 <= radix <= 36,
    ensures
        '0' <= c <= '9' ==> digit_value(c, radix) == (if ((c as int) - ('0' as int)) < radix {
            Some(((c as int) - ('0' as int)) as nat)
        } else {
            None
        }),
        'A' <= c <= 'Z' ==> digit_value(c, radix) == (if ((c as int) - ('A' as int) + 10) < radix {
            Some(((c as int) - ('A' as int) + 10) as nat)
        } else {
            None
        }),
        'a' <= c <= 'z' ==> digit_value(c, radix) == (if ((c as int) - ('a' as int) + 10) < radix {
            Some(((c as int) - ('a' as int) + 10) as nat)
        } else {
            None
        }),
        !('0' <= c <= '9' || 'A' <= c <= 'Z' || 'a' <= c <= 'z') ==> digit_value(c, radix) is None,
{
}

/// A hexadecimal number has the letters of its own case only, and as many
/// digits as it needs or the width asks for.
pub proof fn law_hexadecimal_keeps_its_case(n: nat, width: nat, i: int)
    ensures
        0 <= i < upper_hex(n, width).len() ==> '0' <= upper_hex(n, width)[i] <= '9' || 'A'
            <= upper_hex(n, width)[i] <= 'F',
        0 <= i < lower_hex(n, width).len() ==> '0' <= lower_hex(n, width)[i] <= '9' || 'a'
            <= lower_hex(n, width)[i] <= 'f',
        n < 0x10 && width <= 1 ==> upper_hex(n, width).len() == 1 && lower_hex(n, width).len() == 1,
        n < 0x100 && width == 2 ==> upper_hex(n, width).len() == 2 && lower_hex(n, width).len()
            == 2,
        n < 0x1_0000 && width == 4 ==> upper_hex(n, width).len() == 4 && lower_hex(n, width).len()
            == 4,
{
    lemma_hex_case(n, true, 4);
    lemma_hex_case(n, false, 4);
    reveal_with_fuel(hexadecimal, 3);
}

/// The letters of a hexadecimal number, and how many there are.
proof fn lemma_hex_case(n: nat, upper: bool, k: nat)
    ensures
        forall|i: int|
            0 <= i < hexadecimal(n, upper).len() ==> {
                let c = #[trigger] hexadecimal(n, upper)[i];
                '0' <= c <= '9' || (upper && 'A' <= c <= 'F') || (!upper && 'a' <= c <= 'f')
            },
        k == 4 && n < 0x1_0000 ==> hexadecimal(n, upper).len() <= 4,
        k == 3 && n < 0x1000 ==> hexadecimal(n, upper).len() <= 3,
        k == 2 && n < 0x100 ==> hexadecimal(n, upper).len() <= 2,
        hexadecimal(n, upper).len() >= 1,
    decreases n,
{
    if n >= 16 {
        lemma_hex_case(n / 16, upper, (if k > 0 {
            k - 1
        } else {
            0
        }) as nat);
    }
}

/// What stops the reading of a number is named: digits too many overflow, and a
/// character that is no digit is invalid where the number before it still fits.
pub proof fn law_faults_are_told_apart(s: Seq<char>, radix: nat, max: nat, at: int)
    requires
        2 <= radix <= 36,
        s.len() > 0,
        0 <= at <= unsigned_part(s).len(),
        forall|i: int|
            0 <= i < at ==> digit_value(#[trigger] unsigned_part(s)[i], radix) is Some,
    ensures
        numeral(unsigned_part(s).take(at), radix) > max ==> parsed(s, radix, max) == Err::<
            nat,
            IntFault,
        >(IntFault::Overflow),
        numeral(unsigned_part(s).take(at), radix) <= max && at < unsigned_part(s).len()
            && digit_value(unsigned_part(s)[at], radix) is None ==> parsed(s, radix, max) == Err::<
            nat,
            IntFault,
        >(IntFault::InvalidDigit),
{
    let u = unsigned_part(s);
    assert forall|i: int| 0 <= i < at implies digit_value(
        #[trigger] u.take(at)[i],
        radix,
    ) is Some by {
        assert(u.take(at)[i] == unsigned_part(s)[i]);
    }
    if numeral(u.take(at), radix) > max {
        lemma_overflow_is_lasting(u.take(at), radix, max);
    }
    lemma_digits_are_read_exactly(u.take(at), radix, max);
    if digits_value(u.take(at), radix, max) is Err {
        lemma_first_fault_counts(u, radix, max, at);
    } else if at < u.len() && digit_value(u[at], radix) is None {
        assert(u.take(at + 1).drop_last() =~= u.take(at));
        lemma_first_fault_counts(u, radix, max, at + 1);
    }
}

/// Digits whose number is too large overflow.
proof fn lemma_overflow_is_lasting(s: Seq<char>, radix: nat, max: nat)
    requires
        2 <= radix <= 36,
        forall|i: int| 0 <= i < s.len() ==> digit_value(#[trigger] s[i], radix) is Some,
        numeral(s, radix) > max,
    ensures
        digits_value(s, radix, max) == Err::<nat, IntFault>(IntFault::Overflow),
    decreases s.len(),
{
    let front = s.drop_last();
    assert forall|i: int| 0 <= i < front.len() implies digit_value(
        #[trigger] front[i],
        radix,
    ) is Some by {
        assert(front[i] == s[i]);
    }
    lemma_digits_are_read_exactly(front, radix, max);
    if numeral(front, radix) > max {
        lemma_overflow_is_lasting(front, radix, max);
    }
    assert(digit_value(s[s.len() - 1], radix) is Some);
}

/// A fault in the first digits is the fault of all of them.
proof fn lemma_first_fault_counts(s: Seq<char>, radix: nat, max: nat, at: int)
    requires
        0 <= at <= s.len(),
        digits_value(s.take(at), radix, max) is Err,
    ensures
        digits_value(s, radix, max) == digits_value(s.take(at), radix, max),
    decreases s.len(),
{
    if at < s.len() {
        assert(s.drop_last().take(at) =~= s.take(at));
        lemma_first_fault_counts(s.drop_last(), radix, max, at);
    } else {
        assert(s.take(at) =~= s);
    }
}

// ---------------------------------------------------------------------------
// Columns
// ---------------------------------------------------------------------------

/// Padding fills a column without changing the text: the text stands at the far
/// end, and everything else is the fill.
pub proof fn law_padding_only_fills(s: Seq<char>, width: nat, fill: char)
    ensures
        pad_left(s, width, fill).len() == (if s.len() < width {
            width
        } else {
            s.len()
        }),
        pad_left(s, width, fill).skip(pad_left(s, width, fill).len() - s.len()) == s,
        forall|i: int|
            0 <= i < pad_left(s, width, fill).len() - s.len() ==> #[trigger] pad_left(
                s,
                width,
                fill,
            )[i] == fill,
        pad_right(s, width).len() == (if s.len() < width {
            width
        } else {
            s.len()
        }),
        pad_right(s, width).take(s.len() as int) == s,
        forall|i: int|
            s.len() <= i < pad_right(s, width).len() ==> #[trigger] pad_right(s, width)[i] == ' ',
{
    assert(pad_left(s, width, fill).skip(pad_left(s, width, fill).len() - s.len()) =~= s);
    assert(pad_right(s, width).take(s.len() as int) =~= s);
}

// ---------------------------------------------------------------------------
// Searching
// ---------------------------------------------------------------------------

/// A text contains another exactly when it can be cut in three with that one in
/// the middle.
pub proof fn law_contained_means_cut_out(before: Seq<char>, middle: Seq<char>, after: Seq<char>)
    ensures
        contains(before + middle + after, middle),
{
    let s = before + middle + after;
    assert(s.subrange(before.len() as int, (before.len() + middle.len()) as int) =~= middle);
    assert(matches_at(s, middle, before.len() as int));
}

/// What a text contains, a longer text around it contains.
pub proof fn lemma_contains_inside(
    before: Seq<char>,
    s: Seq<char>,
    after: Seq<char>,
    needle: Seq<char>,
)
    requires
        contains(s, needle),
    ensures
        contains(before + s + after, needle),
{
    let at = choose|at: int| matches_at(s, needle, at);
    let whole = before + s + after;
    assert(whole.subrange(before.len() + at, before.len() + at + needle.len()) =~= s.subrange(
        at,
        at + needle.len(),
    ));
    assert(matches_at(whole, needle, before.len() + at));
}

/// A text that contains another gives the place: what stands before and after
/// it.
pub proof fn law_contained_text_has_a_place(s: Seq<char>, needle: Seq<char>) -> (cut: (
    Seq<char>,
    Seq<char>,
))
    requires
        contains(s, needle),
    ensures
        s == cut.0 + needle + cut.1,
{
    let at = choose|at: int| matches_at(s, needle, at);
    let a = s.take(at);
    let b = s.skip(at + needle.len());
    assert(s =~= a + s.subrange(at, at + needle.len()) + b);
    (a, b)
}

/// A text comes before every longer text that starts with it.
pub proof fn law_a_prefix_comes_first(a: Seq<char>, b: Seq<char>)
    requires
        b.len() > 0,
    ensures
        text_lt(a, a + b),
        !text_lt(a + b, a),
{
    assert(differs_below(a, a + b, a.len() as int));
    crate::text::lemma_text_lt_total(a, a + b);
}

/// The first character that differs decides.
pub proof fn law_the_first_difference_decides(
    common: Seq<char>,
    c: char,
    d: char,
    x: Seq<char>,
    y: Seq<char>,
)
    requires
        (c as int) < (d as int),
    ensures
        text_lt(common.push(c) + x, common.push(d) + y),
        !text_lt(common.push(d) + y, common.push(c) + x),
{
    let a = common.push(c) + x;
    let b = common.push(d) + y;
    assert(differs_below(a, b, common.len() as int));
    crate::text::lemma_text_lt_total(a, b);
}

// ---------------------------------------------------------------------------
// Whitespace, words and lines
// ---------------------------------------------------------------------------

/// Trimming takes away whitespace at the two ends, all of it, and nothing else.
pub proof fn law_trim_takes_only_outer_space(s: Seq<char>) -> (kept: (int, int))
    ensures
        0 <= kept.0 <= kept.1 <= s.len(),
        trim(s) == s.subrange(kept.0, kept.1),
        forall|i: int| 0 <= i < kept.0 ==> is_space(#[trigger] s[i]),
        forall|i: int| kept.1 <= i < s.len() ==> is_space(#[trigger] s[i]),
        kept.0 < kept.1 ==> !is_space(s[kept.0]) && !is_space(s[kept.1 - 1]),
{
    let end = law_trim_end_takes_only_trailing_space(s);
    let t = s.take(end);
    let start = lemma_trim_start_place(t);
    assert(t.skip(start) =~= s.subrange(start, end));
    if start < end {
        assert(t[start] == s[start]);
    }
    assert forall|i: int| 0 <= i < start implies is_space(#[trigger] s[i]) by {
        assert(t[i] == s[i]);
    }
    (start, end)
}

/// Trimming the end takes away the whitespace there, all of it, and nothing
/// else.
pub proof fn law_trim_end_takes_only_trailing_space(s: Seq<char>) -> (end: int)
    ensures
        0 <= end <= s.len(),
        trim_end(s) == s.take(end),
        forall|i: int| end <= i < s.len() ==> is_space(#[trigger] s[i]),
        end > 0 ==> !is_space(s[end - 1]),
    decreases s.len(),
{
    if s.len() > 0 && is_space(s.last()) {
        let front = s.drop_last();
        let end = law_trim_end_takes_only_trailing_space(front);
        assert(front.take(end) =~= s.take(end));
        assert forall|i: int| end <= i < s.len() implies is_space(#[trigger] s[i]) by {
            if i < front.len() {
                assert(front[i] == s[i]);
            }
        }
        if end > 0 {
            assert(front[end - 1] == s[end - 1]);
        }
        end
    } else {
        assert(s.take(s.len() as int) =~= s);
        s.len() as int
    }
}

/// Where the text begins once its leading whitespace is gone.
proof fn lemma_trim_start_place(s: Seq<char>) -> (start: int)
    ensures
        0 <= start <= s.len(),
        trim_start(s) == s.skip(start),
        forall|i: int| 0 <= i < start ==> is_space(#[trigger] s[i]),
        start < s.len() ==> !is_space(s[start]),
    decreases s.len(),
{
    if s.len() > 0 && is_space(s[0]) {
        let rest = s.skip(1);
        let start = lemma_trim_start_place(rest);
        assert(rest.skip(start) =~= s.skip(start + 1));
        assert forall|i: int| 0 <= i < start + 1 implies is_space(#[trigger] s[i]) by {
            if i > 0 {
                assert(rest[i - 1] == s[i]);
            }
        }
        if start < rest.len() {
            assert(rest[start] == s[start + 1]);
        }
        start + 1
    } else {
        assert(s.skip(0) =~= s);
        0
    }
}

/// A row of whitespace.
pub open spec fn all_space(s: Seq<char>) -> bool {
    forall|i: int| 0 <= i < s.len() ==> is_space(#[trigger] s[i])
}

/// A row without whitespace, not empty.
pub open spec fn is_word(s: Seq<char>) -> bool {
    s.len() > 0 && forall|i: int| 0 <= i < s.len() ==> !is_space(#[trigger] s[i])
}

/// The second of two words separated by whitespace is found whatever stands
/// around them, and a text with fewer than two words has none.
pub proof fn law_the_second_word_is_found(
    lead: Seq<char>,
    first: Seq<char>,
    gap: Seq<char>,
    second: Seq<char>,
    tail: Seq<char>,
)
    requires
        all_space(lead),
        all_space(gap),
        gap.len() > 0,
        is_word(first),
        is_word(second),
        tail.len() == 0 || is_space(tail[0]),
    ensures
        second_word(lead + first + gap + second + tail) == second,
        second_word(lead + first + gap) == Seq::<char>::empty(),
        second_word(lead + first) == Seq::<char>::empty(),
        second_word(lead) == Seq::<char>::empty(),
{
    let rest = gap + second + tail;
    assert(lead + first + gap + second + tail =~= lead + (first + rest));
    lemma_skip_space(lead, first + rest);
    lemma_word_ends(first, rest);
    assert((first + rest).skip(first.len() as int) =~= rest);
    assert(rest =~= gap + (second + tail));
    lemma_skip_space(gap, second + tail);
    lemma_word_ends(second, tail);
    assert((second + tail).take(second.len() as int) =~= second);

    assert(lead + first + gap =~= lead + (first + gap));
    lemma_skip_space(lead, first + gap);
    lemma_word_ends(first, gap);
    assert((first + gap).skip(first.len() as int) =~= gap);
    assert(gap + Seq::<char>::empty() =~= gap);
    lemma_skip_space(gap, Seq::empty());
    assert(Seq::<char>::empty().take(0) =~= Seq::empty());

    assert(lead + first =~= lead + (first + Seq::<char>::empty()));
    lemma_skip_space(lead, first + Seq::<char>::empty());
    lemma_word_ends(first, Seq::empty());
    assert((first + Seq::<char>::empty()).skip(first.len() as int) =~= Seq::empty());

    assert(lead + Seq::<char>::empty() =~= lead);
    lemma_skip_space(lead, Seq::empty());
    assert(Seq::<char>::empty().skip(0) =~= Seq::empty());
}

/// Leading whitespace goes, down to the first character that is none.
proof fn lemma_skip_space(lead: Seq<char>, rest: Seq<char>)
    requires
        all_space(lead),
        rest.len() == 0 || !is_space(rest[0]),
    ensures
        trim_start(lead + rest) == rest,
    decreases lead.len(),
{
    let s = lead + rest;
    if lead.len() > 0 {
        assert(s[0] == lead[0]);
        assert(s.skip(1) =~= lead.skip(1) + rest);
        assert forall|i: int| 0 <= i < lead.skip(1).len() implies is_space(
            #[trigger] lead.skip(1)[i],
        ) by {
            assert(lead.skip(1)[i] == lead[i + 1]);
        }
        lemma_skip_space(lead.skip(1), rest);
    } else {
        assert(s =~= rest);
    }
}

/// A word ends where whitespace follows.
proof fn lemma_word_ends(word: Seq<char>, rest: Seq<char>)
    requires
        forall|i: int| 0 <= i < word.len() ==> !is_space(#[trigger] word[i]),
        rest.len() == 0 || is_space(rest[0]),
    ensures
        word_len(word + rest) == word.len(),
    decreases word.len(),
{
    let s = word + rest;
    if word.len() > 0 {
        assert(s[0] == word[0]);
        assert(s.skip(1) =~= word.skip(1) + rest);
        assert forall|i: int| 0 <= i < word.skip(1).len() implies !is_space(
            #[trigger] word.skip(1)[i],
        ) by {
            assert(word.skip(1)[i] == word[i + 1]);
        }
        lemma_word_ends(word.skip(1), rest);
    } else {
        assert(s =~= rest);
    }
}

/// A text on one line counts once if it contains what is looked for, and lines
/// are counted each on its own: the count of two texts joined by a line feed is
/// the sum of their counts.
pub proof fn law_lines_are_counted_one_by_one(a: Seq<char>, b: Seq<char>, needle: Seq<char>)
    ensures
        !a.contains('\n') ==> lines_with(a, needle) == (if contains(a, needle) {
            1nat
        } else {
            0nat
        }),
        lines_with(a.push('\n') + b, needle) == lines_with(a, needle) + lines_with(b, needle),
    decreases a.len(),
{
    let n = line_len(a) as int;
    lemma_line_len(a);
    let s = a.push('\n') + b;
    if n == a.len() {
        lemma_first_line(a, b);
        assert(a.take(n) =~= a);
        assert(s.take(n) =~= a);
        assert(s.skip(n + 1) =~= b);
    } else {
        assert(a[n] == '\n');
        assert(a.contains('\n'));
        let first = a.take(n);
        let rest = a.skip(n + 1);
        assert(s =~= first.push('\n') + (rest.push('\n') + b));
        lemma_line_len(first);
        assert(first.len() == n);
        assert(line_len(first) == n) by {
            lemma_no_feed_is_one_line(first);
        }
        lemma_first_line(first, rest.push('\n') + b);
        assert(s.take(n) =~= first);
        assert(s.skip(n + 1) =~= rest.push('\n') + b);
        law_lines_are_counted_one_by_one(rest, b, needle);
    }
}

/// A line ends at the first line feed or at the end.
proof fn lemma_line_len(s: Seq<char>)
    ensures
        line_len(s) <= s.len(),
        forall|i: int| 0 <= i < line_len(s) ==> #[trigger] s[i] != '\n',
        line_len(s) < s.len() ==> s[line_len(s) as int] == '\n',
    decreases s.len(),
{
    if s.len() > 0 && s[0] != '\n' {
        let rest = s.skip(1);
        lemma_line_len(rest);
        assert forall|i: int| 0 <= i < line_len(s) implies #[trigger] s[i] != '\n' by {
            if i > 0 {
                assert(rest[i - 1] == s[i]);
            }
        }
        if line_len(s) < s.len() {
            assert(rest[line_len(rest) as int] == s[line_len(s) as int]);
        }
    }
}

/// A text without a line feed is one line.
proof fn lemma_no_feed_is_one_line(s: Seq<char>)
    requires
        forall|i: int| 0 <= i < s.len() ==> #[trigger] s[i] != '\n',
    ensures
        line_len(s) == s.len(),
{
    lemma_line_len(s);
}

/// A text without a line feed, then one, is the first line.
proof fn lemma_first_line(line: Seq<char>, rest: Seq<char>)
    requires
        line_len(line) == line.len(),
    ensures
        line_len(line.push('\n') + rest) == line.len(),
{
    let s = line.push('\n') + rest;
    lemma_line_len(line);
    lemma_line_len(s);
    let n = line_len(s) as int;
    if n > line.len() {
        assert(s[line.len() as int] == '\n');
    } else if n < line.len() {
        assert(s[n] == line[n]);
    }
}

/// Trimming takes off exactly the whitespace around a text that has none at its
/// own ends.
pub proof fn law_trim_uncovers_the_text(before: Seq<char>, s: Seq<char>, after: Seq<char>)
    requires
        all_space(before),
        all_space(after),
        s.len() > 0,
        !is_space(s[0]),
        !is_space(s.last()),
    ensures
        trim(before + s + after) == s,
{
    let whole = before + s + after;
    let (from, to) = law_trim_takes_only_outer_space(whole);
    let first = before.len() as int;
    let end = (before.len() + s.len()) as int;
    assert(whole[first] == s[0]);
    assert(whole[end - 1] == s.last());
    if from > first {
        assert(is_space(whole[first]));
    }
    if to < end {
        assert(is_space(whole[end - 1]));
    }
    if from < first {
        assert(whole[from] == before[from]);
    }
    if to > end {
        assert(whole[to - 1] == after[to - 1 - end]);
    }
    assert(whole.subrange(from, to) =~= s);
}

/// Whitespace is the tab, the line breaks and feeds of ASCII, the space, and the
/// spaces and separators beyond ASCII.
pub proof fn law_what_is_whitespace(c: char)
    ensures
        is_space(c) <==> {
            ||| 0x09 <= c as int <= 0x0D
            ||| c as int == 0x20
            ||| c as int == 0x85
            ||| c as int == 0xA0
            ||| c as int == 0x1680
            ||| 0x2000 <= c as int <= 0x200A
            ||| c as int == 0x2028
            ||| c as int == 0x2029
            ||| c as int == 0x202F
            ||| c as int == 0x205F
            ||| c as int == 0x3000
        },
{
}

}
