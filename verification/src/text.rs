//! Building and taking apart text.
//!
//! A `String` is specified by its view, a sequence of characters. Everything
//! here is stated over such sequences: numbers in decimal and hexadecimal,
//! padding, whitespace, words, lines, and integers read back from digits.
pub mod laws;

use vstd::prelude::*;
use vstd::string::StringExecFns;

verus! {

/// `String::push` appends one character at the end.
pub assume_specification[ String::push ](s: &mut String, c: char)
    ensures
        final(s)@ == old(s)@.push(c),
;

// ---------------------------------------------------------------------------
// Numbers
// ---------------------------------------------------------------------------

/// The character for the digit `d`, with upper or lower case letters above 9.
pub open spec fn digit_char(d: nat, upper: bool) -> char {
    if d < 10 {
        (48 + d) as char
    } else if upper {
        (55 + d) as char
    } else {
        (87 + d) as char
    }
}

/// `n` in decimal.
pub open spec fn decimal(n: nat) -> Seq<char>
    decreases n,
{
    if n < 10 {
        seq![digit_char(n, false)]
    } else {
        decimal(n / 10).push(digit_char(n % 10, false))
    }
}

/// `n` in hexadecimal, without leading zeros.
pub open spec fn hexadecimal(n: nat, upper: bool) -> Seq<char>
    decreases n,
{
    if n < 16 {
        seq![digit_char(n, upper)]
    } else {
        hexadecimal(n / 16, upper).push(digit_char(n % 16, upper))
    }
}

/// `n` in decimal, with a minus sign below zero.
pub open spec fn signed_decimal(n: int) -> Seq<char> {
    if n < 0 {
        "-"@ + decimal((-n) as nat)
    } else {
        decimal(n as nat)
    }
}

/// `width - len` copies of `fill`, or none.
pub open spec fn filler(len: nat, width: nat, fill: char) -> Seq<char> {
    Seq::new(if len < width { (width - len) as nat } else { 0 }, |i: int| fill)
}

/// `s` moved right to fill `width` columns.
pub open spec fn pad_left(s: Seq<char>, width: nat, fill: char) -> Seq<char> {
    filler(s.len(), width, fill) + s
}

/// `s` kept left, with spaces after it to fill `width` columns.
pub open spec fn pad_right(s: Seq<char>, width: nat) -> Seq<char> {
    s + filler(s.len(), width, ' ')
}

/// `n` in upper case hexadecimal, zero-padded to `width` digits.
pub open spec fn upper_hex(n: nat, width: nat) -> Seq<char> {
    pad_left(hexadecimal(n, true), width, '0')
}

/// `n` in lower case hexadecimal, zero-padded to `width` digits.
pub open spec fn lower_hex(n: nat, width: nat) -> Seq<char> {
    pad_left(hexadecimal(n, false), width, '0')
}

/// Appends `n` in decimal.
pub fn push_decimal(out: &mut String, n: u64)
    ensures
        final(out)@ == old(out)@ + decimal(n as nat),
    decreases n,
{
    if n >= 10 {
        push_decimal(out, n / 10);
    }
    let d: u8 = (n % 10) as u8;
    out.push((48 + d) as char);
}

/// Appends `n` in decimal, with a minus sign below zero.
pub fn push_signed_decimal(out: &mut String, n: i32)
    ensures
        final(out)@ == old(out)@ + signed_decimal(n as int),
{
    if n < 0 {
        out.append("-");
        push_decimal(out, (-(n as i64)) as u64);
        assert(out@ =~= old(out)@ + ("-"@ + decimal((-n) as nat)));
    } else {
        push_decimal(out, n as u64);
    }
}

/// Appends `count` copies of `c`.
pub fn push_repeated(out: &mut String, c: char, count: usize)
    ensures
        final(out)@ == old(out)@ + Seq::new(count as nat, |i: int| c),
{
    let ghost start = out@;
    let mut i: usize = 0;
    while i < count
        invariant
            i <= count,
            out@ =~= start + Seq::new(i as nat, |i: int| c),
        decreases count - i,
    {
        out.push(c);
        i = i + 1;
    }
}

/// Appends `n` in hexadecimal, without padding.
fn push_hex_digits(out: &mut String, n: u64, upper: bool)
    ensures
        final(out)@ == old(out)@ + hexadecimal(n as nat, upper),
    decreases n,
{
    if n >= 16 {
        push_hex_digits(out, n / 16, upper);
    }
    let d: u8 = (n % 16) as u8;
    let c: char = if d < 10 {
        (48 + d) as char
    } else if upper {
        (55 + d) as char
    } else {
        (87 + d) as char
    };
    out.push(c);
}

/// Appends `s`, moved right to fill `width` columns with `fill`.
pub fn push_pad_left(out: &mut String, s: &str, width: usize, fill: char)
    ensures
        final(out)@ == old(out)@ + pad_left(s@, width as nat, fill),
{
    let len: usize = s.unicode_len();
    if len < width {
        push_repeated(out, fill, width - len);
    }
    out.append(s);
    assert(out@ =~= old(out)@ + pad_left(s@, width as nat, fill));
}

/// Appends `s`, with spaces after it to fill `width` columns.
pub fn push_pad_right(out: &mut String, s: &str, width: usize)
    ensures
        final(out)@ == old(out)@ + pad_right(s@, width as nat),
{
    out.append(s);
    let len: usize = s.unicode_len();
    if len < width {
        push_repeated(out, ' ', width - len);
    }
    assert(out@ =~= old(out)@ + pad_right(s@, width as nat));
}

/// Appends `n` in upper case hexadecimal, zero-padded to `width` digits.
pub fn push_upper_hex(out: &mut String, n: u64, width: usize)
    ensures
        final(out)@ == old(out)@ + upper_hex(n as nat, width as nat),
{
    let mut digits = String::new();
    push_hex_digits(&mut digits, n, true);
    assert(digits@ =~= hexadecimal(n as nat, true));
    push_pad_left(out, digits.as_str(), width, '0');
}

/// Appends `n` in lower case hexadecimal, zero-padded to `width` digits.
pub fn push_lower_hex(out: &mut String, n: u64, width: usize)
    ensures
        final(out)@ == old(out)@ + lower_hex(n as nat, width as nat),
{
    let mut digits = String::new();
    push_hex_digits(&mut digits, n, false);
    assert(digits@ =~= hexadecimal(n as nat, false));
    push_pad_left(out, digits.as_str(), width, '0');
}

// ---------------------------------------------------------------------------
// Characters
// ---------------------------------------------------------------------------

/// The characters of `s`.
pub fn chars_of(s: &str) -> (v: Vec<char>)
    ensures
        v@ == s@,
{
    let mut v: Vec<char> = Vec::new();
    for c in it: s.chars()
        invariant
            v@ == s@.take(it.index()),
            it.seq() == s@,
    {
        v.push(c);
    }
    v
}

/// The text made of `v[from..to]`.
pub fn text_of(v: &Vec<char>, from: usize, to: usize) -> (s: String)
    requires
        from <= to <= v@.len(),
    ensures
        s@ == v@.subrange(from as int, to as int),
{
    let mut s = String::new();
    let mut i: usize = from;
    while i < to
        invariant
            from <= i <= to <= v@.len(),
            s@ =~= v@.subrange(from as int, i as int),
        decreases to - i,
    {
        s.push(v[i]);
        i = i + 1;
    }
    s
}

/// The texts of a row of strings.
pub open spec fn texts(names: Seq<String>) -> Seq<Seq<char>> {
    names.map_values(|s: String| s@)
}

/// Whether `s` holds `needle` at position `at`.
pub open spec fn matches_at(s: Seq<char>, needle: Seq<char>, at: int) -> bool {
    0 <= at && at + needle.len() <= s.len() && s.subrange(at, at + needle.len()) == needle
}

/// Whether `needle` occurs in `s`.
pub open spec fn contains(s: Seq<char>, needle: Seq<char>) -> bool {
    exists|at: int| matches_at(s, needle, at)
}

/// Whether `v[from..to]` starts with `needle`.
fn range_starts_with(v: &Vec<char>, from: usize, to: usize, needle: &Vec<char>) -> (found: bool)
    requires
        from <= to <= v@.len(),
    ensures
        found == matches_at(v@.subrange(0, to as int), needle@, from as int),
{
    if to - from < needle.len() {
        return false;
    }
    let mut i: usize = 0;
    while i < needle.len()
        invariant
            from + needle@.len() <= to <= v@.len(),
            0 <= i <= needle@.len(),
            forall|k: int| 0 <= k < i ==> v@[from + k] == needle@[k],
        decreases needle@.len() - i,
    {
        if v[from + i] != needle[i] {
            assert(v@.subrange(0, to as int).subrange(
                from as int,
                from + needle@.len(),
            )[i as int] == v@[from + i]);
            return false;
        }
        i = i + 1;
    }
    assert(v@.subrange(0, to as int).subrange(from as int, from + needle@.len()) =~= needle@);
    true
}

/// Whether `s` starts with `prefix`.
pub open spec fn starts_with(s: Seq<char>, prefix: Seq<char>) -> bool {
    matches_at(s, prefix, 0)
}

/// Whether `v` starts with `prefix`.
pub fn has_prefix(v: &Vec<char>, prefix: &str) -> (found: bool)
    ensures
        found == starts_with(v@, prefix@),
{
    let p = chars_of(prefix);
    assert(v@.subrange(0, v@.len() as int) =~= v@);
    range_starts_with(v, 0, v.len(), &p)
}

/// Whether two texts hold the same characters.
pub fn same(a: &str, b: &str) -> (r: bool)
    ensures
        r == (a@ == b@),
{
    let x = chars_of(a);
    let y = chars_of(b);
    if x.len() != y.len() {
        return false;
    }
    let mut i: usize = 0;
    while i < x.len()
        invariant
            x@ == a@,
            y@ == b@,
            x@.len() == y@.len(),
            0 <= i <= x@.len(),
            forall|k: int| 0 <= k < i ==> x@[k] == y@[k],
        decreases x@.len() - i,
    {
        if x[i] != y[i] {
            assert(a@[i as int] != b@[i as int]);
            return false;
        }
        i = i + 1;
    }
    assert(x@ =~= y@);
    true
}

/// Lexicographic order by character, the order of `str`: UTF-8 keeps the order
/// of the code points it encodes.
pub open spec fn text_lt(a: Seq<char>, b: Seq<char>) -> bool {
    exists|i: int| differs_below(a, b, i)
}

/// `a` and `b` agree before `i`, and at `i` either `a` has ended or holds the
/// smaller character.
pub open spec fn differs_below(a: Seq<char>, b: Seq<char>, i: int) -> bool {
    &&& 0 <= i <= a.len()
    &&& i < b.len()
    &&& forall|k: int| 0 <= k < i ==> a[k] == b[k]
    &&& i == a.len() || (a[i] as int) < (b[i] as int)
}

/// No text is below itself.
pub proof fn lemma_text_lt_irreflexive(a: Seq<char>)
    ensures
        !text_lt(a, a),
{
}

/// The order is transitive.
pub proof fn lemma_text_lt_transitive(a: Seq<char>, b: Seq<char>, c: Seq<char>)
    requires
        text_lt(a, b),
        text_lt(b, c),
    ensures
        text_lt(a, c),
{
    let i = choose|i: int| differs_below(a, b, i);
    let j = choose|j: int| differs_below(b, c, j);
    let k = if i < j { i } else { j };
    assert(differs_below(a, c, k));
}

/// Two different texts are ordered one way or the other, never both.
pub proof fn lemma_text_lt_total(a: Seq<char>, b: Seq<char>)
    ensures
        a == b || text_lt(a, b) || text_lt(b, a),
        !(text_lt(a, b) && text_lt(b, a)),
    decreases a.len(),
{
    if text_lt(a, b) && text_lt(b, a) {
        lemma_text_lt_transitive(a, b, a);
    }
    if a.len() == 0 {
        if b.len() == 0 {
            assert(a =~= b);
        } else {
            assert(differs_below(a, b, 0));
        }
    } else if b.len() == 0 {
        assert(differs_below(b, a, 0));
    } else if a[0] != b[0] {
        assert(differs_below(a, b, 0) || differs_below(b, a, 0));
    } else {
        let x = a.skip(1);
        let y = b.skip(1);
        lemma_text_lt_total(x, y);
        if x == y {
            assert(a =~= seq![a[0]] + x);
            assert(b =~= seq![b[0]] + y);
        } else if text_lt(x, y) {
            let i = choose|i: int| differs_below(x, y, i);
            assert forall|k: int| 0 <= k < i + 1 implies a[k] == b[k] by {
                if k > 0 {
                    assert(x[k - 1] == y[k - 1]);
                }
            }
            assert(differs_below(a, b, i + 1));
        } else {
            let i = choose|i: int| differs_below(y, x, i);
            assert forall|k: int| 0 <= k < i + 1 implies a[k] == b[k] by {
                if k > 0 {
                    assert(x[k - 1] == y[k - 1]);
                }
            }
            assert(differs_below(b, a, i + 1));
        }
    }
}

/// Whether `c` has the smaller code point.
fn precedes(c: char, d: char) -> (r: bool)
    ensures
        r == ((c as int) < (d as int)),
{
    (c as u32) < (d as u32)
}

/// Whether `a` is below `b`.
pub fn less(a: &str, b: &str) -> (r: bool)
    ensures
        r == text_lt(a@, b@),
{
    let x = chars_of(a);
    let y = chars_of(b);
    let mut i: usize = 0;
    while i < x.len() && i < y.len()
        invariant
            x@ == a@,
            y@ == b@,
            0 <= i <= x@.len(),
            i <= y@.len(),
            forall|k: int| 0 <= k < i ==> x@[k] == y@[k],
        decreases x@.len() - i,
    {
        let c: char = x[i];
        let d: char = y[i];
        if c != d {
            let below: bool = precedes(c, d);
            proof {
                if below {
                    assert(differs_below(a@, b@, i as int));
                } else {
                    assert(differs_below(b@, a@, i as int));
                    lemma_text_lt_total(a@, b@);
                }
            }
            return below;
        }
        i = i + 1;
    }
    let below: bool = i < y.len();
    proof {
        if below {
            assert(differs_below(a@, b@, i as int));
        } else if x@.len() == y@.len() {
            assert(a@ =~= b@);
        } else {
            assert(differs_below(b@, a@, i as int));
            lemma_text_lt_total(a@, b@);
        }
    }
    below
}

// ---------------------------------------------------------------------------
// Whitespace, words and lines
// ---------------------------------------------------------------------------

/// The characters with the Unicode property `White_Space`.
pub open spec fn is_space(c: char) -> bool {
    let n = c as int;
    ||| 9 <= n <= 13
    ||| n == 0x20
    ||| n == 0x85
    ||| n == 0xA0
    ||| n == 0x1680
    ||| 0x2000 <= n <= 0x200A
    ||| n == 0x2028
    ||| n == 0x2029
    ||| n == 0x202F
    ||| n == 0x205F
    ||| n == 0x3000
}

/// Whether `c` is whitespace.
pub fn is_whitespace(c: char) -> (r: bool)
    ensures
        r == is_space(c),
{
    let n: u32 = c as u32;
    (9 <= n && n <= 13) || n == 0x20 || n == 0x85 || n == 0xA0 || n == 0x1680 || (0x2000 <= n && n
        <= 0x200A) || n == 0x2028 || n == 0x2029 || n == 0x202F || n == 0x205F || n == 0x3000
}

/// `s` without the whitespace at its start.
pub open spec fn trim_start(s: Seq<char>) -> Seq<char>
    decreases s.len(),
{
    if s.len() > 0 && is_space(s[0]) {
        trim_start(s.skip(1))
    } else {
        s
    }
}

/// `s` without the whitespace at its end.
pub open spec fn trim_end(s: Seq<char>) -> Seq<char>
    decreases s.len(),
{
    if s.len() > 0 && is_space(s.last()) {
        trim_end(s.drop_last())
    } else {
        s
    }
}

/// `s` without the whitespace at either end.
pub open spec fn trim(s: Seq<char>) -> Seq<char> {
    trim_start(trim_end(s))
}

/// Where the trimmed end of `v[0..to]` lies.
fn trimmed_end(v: &Vec<char>, to: usize) -> (end: usize)
    requires
        to <= v@.len(),
    ensures
        end <= to,
        v@.take(end as int) == trim_end(v@.take(to as int)),
    decreases to,
{
    assert(v@.take(to as int).len() == to);
    if to > 0 && is_whitespace(v[to - 1]) {
        assert(v@.take(to as int).last() == v@[to - 1]);
        assert(v@.take(to as int).drop_last() =~= v@.take(to - 1));
        trimmed_end(v, to - 1)
    } else {
        assert(to > 0 ==> v@.take(to as int).last() == v@[to - 1]);
        to
    }
}

/// Where the trimmed start of `v[from..to]` lies.
fn trimmed_start(v: &Vec<char>, from: usize, to: usize) -> (start: usize)
    requires
        from <= to <= v@.len(),
    ensures
        from <= start <= to,
        v@.subrange(start as int, to as int) == trim_start(v@.subrange(from as int, to as int)),
    decreases to - from,
{
    if from < to && is_whitespace(v[from]) {
        assert(v@.subrange(from as int, to as int).skip(1) =~= v@.subrange(from + 1, to as int));
        trimmed_start(v, from + 1, to)
    } else {
        from
    }
}

/// `s` without the whitespace at its end.
pub fn trimmed_end_text(s: &str) -> (r: String)
    ensures
        r@ == trim_end(s@),
{
    let v = chars_of(s);
    let end: usize = trimmed_end(&v, v.len());
    assert(v@.take(v@.len() as int) =~= v@);
    assert(v@.subrange(0, end as int) =~= v@.take(end as int));
    text_of(&v, 0, end)
}

/// `s` without the whitespace at either end.
pub fn trimmed(s: &str) -> (r: String)
    ensures
        r@ == trim(s@),
{
    let v = chars_of(s);
    let end: usize = trimmed_end(&v, v.len());
    assert(v@.take(v@.len() as int) =~= v@);
    assert(v@.subrange(0, end as int) =~= v@.take(end as int));
    let start: usize = trimmed_start(&v, 0, end);
    text_of(&v, start, end)
}

/// How many characters `s` holds before the first that is whitespace.
pub open spec fn word_len(s: Seq<char>) -> nat
    decreases s.len(),
{
    if s.len() == 0 || is_space(s[0]) {
        0
    } else {
        1 + word_len(s.skip(1))
    }
}

/// The first whitespace-separated word of `s`, empty when there is none.
pub open spec fn first_word(s: Seq<char>) -> Seq<char> {
    trim_start(s).take(word_len(trim_start(s)) as int)
}

/// What follows the first word of `s`.
pub open spec fn after_first_word(s: Seq<char>) -> Seq<char> {
    trim_start(s).skip(word_len(trim_start(s)) as int)
}

/// The second whitespace-separated word of `s`, empty when there is none.
pub open spec fn second_word(s: Seq<char>) -> Seq<char> {
    first_word(after_first_word(s))
}

/// Where the word that starts at `from` ends in `v`.
fn word_end(v: &Vec<char>, from: usize) -> (end: usize)
    requires
        from <= v@.len(),
    ensures
        from <= end <= v@.len(),
        end - from == word_len(v@.subrange(from as int, v@.len() as int)),
    decreases v@.len() - from,
{
    if from < v.len() && !is_whitespace(v[from]) {
        assert(v@.subrange(from as int, v@.len() as int).skip(1) =~= v@.subrange(
            from + 1,
            v@.len() as int,
        ));
        word_end(v, from + 1)
    } else {
        from
    }
}

/// The second whitespace-separated word of `s`, empty when there is none.
pub fn second_word_of(s: &str) -> (r: String)
    ensures
        r@ == second_word(s@),
{
    let v = chars_of(s);
    let n: usize = v.len();
    assert(v@.subrange(0, n as int) =~= v@);
    let first: usize = trimmed_start(&v, 0, n);
    let first_end: usize = word_end(&v, first);
    assert(v@.subrange(first as int, n as int).skip(first_end - first) =~= v@.subrange(
        first_end as int,
        n as int,
    ));
    let second: usize = trimmed_start(&v, first_end, n);
    let second_end: usize = word_end(&v, second);
    assert(v@.subrange(second as int, n as int).take(second_end - second) =~= v@.subrange(
        second as int,
        second_end as int,
    ));
    text_of(&v, second, second_end)
}

/// How many characters `s` holds before its first line feed.
pub open spec fn line_len(s: Seq<char>) -> nat
    decreases s.len(),
{
    if s.len() == 0 || s[0] == '\n' {
        0
    } else {
        1 + line_len(s.skip(1))
    }
}

/// How many of the lines of `s` contain `needle`.
///
/// A line ends at a line feed or at the end of the text.
pub open spec fn lines_with(s: Seq<char>, needle: Seq<char>) -> nat
    decreases s.len(),
{
    let n = line_len(s) as int;
    let here: nat = if contains(s.take(n), needle) {
        1
    } else {
        0
    };
    if n < s.len() {
        here + lines_with(s.skip(n + 1), needle)
    } else {
        here
    }
}

/// Where the line that starts at `from` ends in `v`.
fn line_end(v: &Vec<char>, from: usize) -> (end: usize)
    requires
        from <= v@.len(),
    ensures
        from <= end <= v@.len(),
        end - from == line_len(v@.subrange(from as int, v@.len() as int)),
    decreases v@.len() - from,
{
    if from < v.len() && v[from] != '\n' {
        assert(v@.subrange(from as int, v@.len() as int).skip(1) =~= v@.subrange(
            from + 1,
            v@.len() as int,
        ));
        line_end(v, from + 1)
    } else {
        from
    }
}

/// Whether `v[from..to]` contains `needle`.
fn range_contains(v: &Vec<char>, from: usize, to: usize, needle: &Vec<char>) -> (found: bool)
    requires
        from <= to <= v@.len(),
    ensures
        found == contains(v@.subrange(from as int, to as int), needle@),
{
    let ghost part = v@.subrange(from as int, to as int);
    let mut at: usize = from;
    loop
        invariant
            from <= at <= to <= v@.len(),
            part == v@.subrange(from as int, to as int),
            forall|k: int| 0 <= k < at - from ==> !matches_at(part, needle@, k),
        decreases to - at,
    {
        let here: bool = range_starts_with(v, at, to, needle);
        proof {
            if at + needle@.len() <= to {
                assert(v@.subrange(0, to as int).subrange(at as int, at + needle@.len())
                    =~= part.subrange(at - from, at - from + needle@.len()));
            }
            assert(here == matches_at(part, needle@, at - from));
        }
        if here {
            return true;
        }
        if at == to {
            return false;
        }
        at = at + 1;
    }
}

/// Whether `needle` occurs in `s`.
pub fn find(s: &str, needle: &str) -> (found: bool)
    ensures
        found == contains(s@, needle@),
{
    let v = chars_of(s);
    let p = chars_of(needle);
    assert(v@.subrange(0, v@.len() as int) =~= v@);
    range_contains(&v, 0, v.len(), &p)
}

/// How many of the lines of `s` contain `needle`.
pub fn count_lines_with(s: &str, needle: &str) -> (count: u64)
    requires
        needle@.len() > 0,
    ensures
        count == lines_with(s@, needle@),
{
    let v = chars_of(s);
    let p = chars_of(needle);
    let mut from: usize = 0;
    let mut count: u64 = 0;
    assert(v@.subrange(0, v@.len() as int) =~= v@);
    loop
        invariant
            0 <= from <= v@.len(),
            p@.len() > 0,
            v@ == s@,
            p@ == needle@,
            count <= from,
            count + lines_with(v@.subrange(from as int, v@.len() as int), p@) == lines_with(
                v@,
                p@,
            ),
        decreases v@.len() - from,
    {
        let ghost rest = v@.subrange(from as int, v@.len() as int);
        let end: usize = line_end(&v, from);
        assert(rest.take(end - from) =~= v@.subrange(from as int, end as int));
        if range_contains(&v, from, end, &p) {
            assert(from < end);
            count = count + 1;
        }
        if end == v.len() {
            return count;
        }
        assert(rest.skip(end - from + 1) =~= v@.subrange(end + 1, v@.len() as int));
        from = end + 1;
    }
}

// ---------------------------------------------------------------------------
// Integers
// ---------------------------------------------------------------------------

/// Why a text is not an integer.
#[derive(Debug, Clone, Copy, PartialEq, Eq, Structural)]
pub enum IntFault {
    /// There is nothing to read.
    Empty,
    /// A character is not a digit.
    InvalidDigit,
    /// The value is too large.
    Overflow,
}

/// The value of the digit `c`, or `None` where the radix has no such digit.
pub open spec fn digit_value(c: char, radix: nat) -> Option<nat> {
    let n = c as int;
    let d = if 48 <= n <= 57 {
        n - 48
    } else if 65 <= n <= 90 {
        n - 55
    } else if 97 <= n <= 122 {
        n - 87
    } else {
        radix as int
    };
    if d < radix {
        Some(d as nat)
    } else {
        None
    }
}

/// Digits read from the left, up to the first fault.
pub open spec fn digits_value(s: Seq<char>, radix: nat, max: nat) -> Result<nat, IntFault>
    decreases s.len(),
{
    if s.len() == 0 {
        Ok(0)
    } else {
        match digits_value(s.drop_last(), radix, max) {
            Err(fault) => Err(fault),
            Ok(value) => match digit_value(s.last(), radix) {
                None => Err(IntFault::InvalidDigit),
                Some(d) => if value * radix + d > max {
                    Err(IntFault::Overflow)
                } else {
                    Ok((value * radix + d) as nat)
                },
            },
        }
    }
}

/// `s` as an unsigned integer of at most `max`: digits, after an optional plus
/// sign.
pub open spec fn parsed(s: Seq<char>, radix: nat, max: nat) -> Result<nat, IntFault> {
    if s.len() == 0 {
        Err(IntFault::Empty)
    } else if s.len() > 1 && s[0] == '+' {
        digits_value(s.skip(1), radix, max)
    } else {
        digits_value(s, radix, max)
    }
}

/// The value of the digit `c`.
fn digit_of(c: char, radix: u64) -> (d: Option<u64>)
    requires
        2 <= radix <= 36,
    ensures
        match d {
            Some(n) => digit_value(c, radix as nat) == Some(n as nat) && n < radix,
            None => digit_value(c, radix as nat) is None,
        },
{
    let n: u32 = c as u32;
    let d: u64 = if 48 <= n && n <= 57 {
        (n - 48) as u64
    } else if 65 <= n && n <= 90 {
        (n - 55) as u64
    } else if 97 <= n && n <= 122 {
        (n - 87) as u64
    } else {
        radix
    };
    if d < radix {
        Some(d)
    } else {
        None
    }
}

/// `v[from..]` as an unsigned integer of at most `max`, in radix `radix`.
///
/// An optional plus sign, then digits. The fault is the first one met from the
/// left.
pub fn parse_unsigned(v: &Vec<char>, from: usize, radix: u64, max: u64) -> (r: Result<
    u64,
    IntFault,
>)
    requires
        from <= v@.len(),
        2 <= radix <= 36,
    ensures
        match r {
            Ok(n) => parsed(v@.skip(from as int), radix as nat, max as nat) == Ok::<nat, IntFault>(
                n as nat,
            ) && n <= max,
            Err(fault) => parsed(v@.skip(from as int), radix as nat, max as nat) == Err::<
                nat,
                IntFault,
            >(fault),
        },
{
    let ghost text = v@.skip(from as int);
    if from == v.len() {
        return Err(IntFault::Empty);
    }
    assert(text[0] == v@[from as int]);
    let start: usize = if v.len() - from > 1 && v[from] == '+' {
        from + 1
    } else {
        from
    };
    let ghost digits = v@.skip(start as int);
    assert(start == from + 1 ==> text.skip(1) =~= digits);
    let mut i: usize = start;
    let mut value: u64 = 0;
    while i < v.len()
        invariant
            start <= i <= v@.len(),
            2 <= radix <= 36,
            digits == v@.skip(start as int),
            text.len() > 0,
            parsed(text, radix as nat, max as nat) == digits_value(
                digits,
                radix as nat,
                max as nat,
            ),
            text == v@.skip(from as int),
            digits_value(digits.take(i - start), radix as nat, max as nat) == Ok::<nat, IntFault>(
                value as nat,
            ),
            value <= max,
        decreases v@.len() - i,
    {
        proof {
            assert(digits.take(i - start + 1).drop_last() =~= digits.take(i - start));
            assert(digits.take(i - start + 1).last() == v@[i as int]);
            assert(value * radix <= u64::MAX * 36) by (nonlinear_arith)
                requires
                    value <= u64::MAX,
                    radix <= 36,
            ;
        }
        let next: Option<u64> = digit_of(v[i], radix);
        match next {
            None => {
                proof {
                    lemma_fault_stays(digits, i - start + 1, radix as nat, max as nat);
                }
                return Err(IntFault::InvalidDigit);
            },
            Some(d) => {
                let wide: u128 = value as u128 * radix as u128 + d as u128;
                if wide > max as u128 {
                    proof {
                        lemma_fault_stays(digits, i - start + 1, radix as nat, max as nat);
                    }
                    return Err(IntFault::Overflow);
                }
                value = wide as u64;
            },
        }
        i = i + 1;
    }
    assert(digits.take(i - start) =~= digits);
    Ok(value)
}

/// A value that is read never exceeds the maximum.
pub proof fn lemma_digits_fit(s: Seq<char>, radix: nat, max: nat)
    ensures
        digits_value(s, radix, max) is Ok ==> digits_value(s, radix, max)->Ok_0 <= max,
    decreases s.len(),
{
    if s.len() > 0 {
        lemma_digits_fit(s.drop_last(), radix, max);
    }
}

/// A fault in the first `n` characters is the fault of the whole.
proof fn lemma_fault_stays(s: Seq<char>, n: int, radix: nat, max: nat)
    requires
        0 <= n <= s.len(),
        digits_value(s.take(n), radix, max) is Err,
    ensures
        digits_value(s, radix, max) == digits_value(s.take(n), radix, max),
    decreases s.len(),
{
    if n == s.len() {
        assert(s.take(n) =~= s);
    } else {
        assert(s.drop_last().take(n) =~= s.take(n));
        lemma_fault_stays(s.drop_last(), n, radix, max);
    }
}

}
