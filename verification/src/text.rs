//! Decimal text: how ids are written into a request and how the counts of a
//! price record are read.
use vstd::prelude::*;
use vstd::string::*;

verus! {

/// `String::push` appends one character to the end of the string.
pub assume_specification[ String::push ](s: &mut String, ch: char)
    ensures
        final(s)@ == old(s)@.push(ch),
;

/// The character that writes the digit `d`.
pub open spec fn digit_char(d: int) -> char {
    if d == 0 {
        '0'
    } else if d == 1 {
        '1'
    } else if d == 2 {
        '2'
    } else if d == 3 {
        '3'
    } else if d == 4 {
        '4'
    } else if d == 5 {
        '5'
    } else if d == 6 {
        '6'
    } else if d == 7 {
        '7'
    } else if d == 8 {
        '8'
    } else {
        '9'
    }
}

/// Whether `c` is one of the ten ASCII digits.
pub open spec fn is_digit(c: char) -> bool {
    '0' <= c && c <= '9'
}

/// The number that the digit `c` stands for.
pub open spec fn digit_value(c: char) -> int {
    c as int - '0' as int
}

/// The digits of `n`, most significant first, without leading zeros.
pub open spec fn digits_of(n: nat) -> Seq<char>
    decreases n,
{
    if n < 10 {
        seq![digit_char(n as int)]
    } else {
        digits_of(n / 10).push(digit_char((n % 10) as int))
    }
}

/// `n` in decimal, with a leading minus sign when negative.
pub open spec fn decimal_text(n: int) -> Seq<char> {
    if n < 0 {
        seq!['-'] + digits_of((-n) as nat)
    } else {
        digits_of(n as nat)
    }
}

/// The number that a run of digits writes.
pub open spec fn digits_value(s: Seq<char>) -> nat
    decreases s.len(),
{
    if s.len() == 0 {
        0
    } else {
        (digits_value(s.drop_last()) * 10 + digit_value(s.last())) as nat
    }
}

/// Whether every character of `s` is a digit.
pub open spec fn all_digits(s: Seq<char>) -> bool {
    forall|i: int| 0 <= i < s.len() ==> is_digit(#[trigger] s[i])
}

/// Whether `s` opens with a sign character.
pub open spec fn has_sign(s: Seq<char>) -> bool {
    s.len() > 0 && (s[0] == '-' || s[0] == '+')
}

/// The whole number that `s` writes, if it writes one that fits 64 signed
/// bits: an optional `+` or `-`, then one or more digits and nothing else.
pub open spec fn count_value(s: Seq<char>) -> Option<i64> {
    let body = if has_sign(s) {
        s.skip(1)
    } else {
        s
    };
    let magnitude = digits_value(body) as int;
    let value = if has_sign(s) && s[0] == '-' {
        -magnitude
    } else {
        magnitude
    };
    if body.len() == 0 || !all_digits(body) || value < i64::MIN || value > i64::MAX {
        None
    } else {
        Some(value as i64)
    }
}

fn digit_to_char(d: u64) -> (c: char)
    requires
        d < 10,
    ensures
        c == digit_char(d as int),
{
    if d == 0 {
        '0'
    } else if d == 1 {
        '1'
    } else if d == 2 {
        '2'
    } else if d == 3 {
        '3'
    } else if d == 4 {
        '4'
    } else if d == 5 {
        '5'
    } else if d == 6 {
        '6'
    } else if d == 7 {
        '7'
    } else if d == 8 {
        '8'
    } else {
        '9'
    }
}

/// Appends the digits of `n` to `out`.
pub fn push_digits(out: &mut String, n: u64)
    ensures
        final(out)@ == old(out)@ + digits_of(n as nat),
    decreases n,
{
    if n >= 10 {
        push_digits(out, n / 10);
    }
    out.push(digit_to_char(n % 10));
}

/// Appends `n` in decimal to `out`.
pub fn push_decimal(out: &mut String, n: i32)
    ensures
        final(out)@ == old(out)@ + decimal_text(n as int),
{
    let wide: i64 = n as i64;
    if wide < 0 {
        out.push('-');
        push_digits(out, (-wide) as u64);
        assert(old(out)@.push('-') + digits_of((-n) as nat) == old(out)@ + decimal_text(n as int));
    } else {
        push_digits(out, wide as u64);
    }
}

/// A longer run of digits writes no smaller a number than any of its prefixes.
pub proof fn lemma_digits_value_grows(s: Seq<char>, i: int)
    requires
        0 <= i <= s.len(),
        all_digits(s),
    ensures
        digits_value(s.take(i)) <= digits_value(s),
    decreases s.len() - i,
{
    if i == s.len() {
        assert(s.take(i) == s);
    } else {
        lemma_digits_value_grows(s, i + 1);
        let longer = s.take(i + 1);
        assert(longer.drop_last() == s.take(i));
        assert(longer.last() == s[i]);
        assert(is_digit(s[i]));
    }
}

/// Reads a whole number written in decimal. Any other text, and a number
/// outside 64 signed bits, gives `None`.
pub fn parse_count(s: &str) -> (r: Option<i64>)
    ensures
        r == count_value(s@),
{
    let len: usize = s.unicode_len();
    if len == 0 {
        return None;
    }
    let first: char = s.get_char(0);
    let negative: bool = first == '-';
    let begin: usize = if first == '-' || first == '+' {
        1
    } else {
        0
    };
    if begin == len {
        return None;
    }
    let ghost body = s@.skip(begin as int);
    proof {
        assert(s@.skip(0) == s@);
        assert(has_sign(s@) <==> begin == 1);
        assert(body.take(0) == Seq::<char>::empty());
    }
    let mut acc: u64 = 0;
    let mut i: usize = begin;
    while i < len
        invariant
            begin <= i <= len,
            len == s@.len(),
            body == s@.skip(begin as int),
            body == (if has_sign(s@) {
                s@.skip(1)
            } else {
                s@
            }),
            all_digits(body.take(i - begin)),
            acc == digits_value(body.take(i - begin)),
            acc <= 9223372036854775808,
        decreases len - i,
    {
        let c: char = s.get_char(i);
        if !('0' <= c && c <= '9') {
            assert(body[i - begin] == c);
            return None;
        }
        let d: u64 = (c as u64) - ('0' as u64);
        let ghost longer = body.take(i - begin + 1);
        proof {
            assert(longer.drop_last() == body.take(i - begin));
            assert(longer.last() == c);
            assert forall|k: int| 0 <= k < longer.len() implies is_digit(#[trigger] longer[k]) by {
                if k < i - begin {
                    assert(longer[k] == body.take(i - begin)[k]);
                }
            }
        }
        assert(digits_value(longer) == acc * 10 + d);
        // One more digit would take the magnitude past 2^63.
        if acc > 922337203685477580 || (acc == 922337203685477580 && d > 8) {
            proof {
                if all_digits(body) {
                    lemma_digits_value_grows(body, i - begin + 1);
                }
            }
            return None;
        }
        acc = acc * 10 + d;
        i = i + 1;
    }
    assert(body.take(i - begin) == body);
    if negative {
        if acc == 9223372036854775808 {
            Some(i64::MIN)
        } else {
            Some(-(acc as i64))
        }
    } else if acc == 9223372036854775808 {
        None
    } else {
        Some(acc as i64)
    }
}

/// The digits of a number are digits, and write that number.
pub proof fn lemma_digits_of_reads_back(n: nat)
    ensures
        digits_of(n).len() > 0,
        all_digits(digits_of(n)),
        digits_value(digits_of(n)) == n,
    decreases n,
{
    let text = digits_of(n);
    if n < 10 {
        assert(text.drop_last() == Seq::<char>::empty());
        assert(digits_value(text.drop_last()) == 0);
        assert(digit_value(digit_char(n as int)) == n);
    } else {
        lemma_digits_of_reads_back(n / 10);
        let init = digits_of(n / 10);
        assert(text.drop_last() == init);
        assert(digit_value(digit_char((n % 10) as int)) == n % 10);
        assert forall|i: int| 0 <= i < text.len() implies is_digit(#[trigger] text[i]) by {
            if i < init.len() {
                assert(text[i] == init[i]);
            }
        }
    }
}

/// What is written in decimal reads back as the same number: the text of a
/// number that fits 64 signed bits is read as that number.
pub proof fn lemma_decimal_text_reads_back(n: int)
    requires
        i64::MIN <= n <= i64::MAX,
    ensures
        count_value(decimal_text(n)) == Some(n as i64),
{
    let text = decimal_text(n);
    if n < 0 {
        let digits = digits_of((-n) as nat);
        lemma_digits_of_reads_back((-n) as nat);
        assert(text[0] == '-');
        assert(text.skip(1) == digits);
    } else {
        lemma_digits_of_reads_back(n as nat);
        assert(is_digit(text[0]));
    }
}

/// Whether every character of `s` from `from` up to `to` is a digit.
pub open spec fn digits_between(s: Seq<char>, from: int, to: int) -> bool {
    forall|k: int| from <= k < to ==> is_digit(#[trigger] s[k])
}

/// Whether `s` from `from` on spells `lower`, in letters of either case;
/// `upper` is `lower` in capitals.
pub open spec fn spells(s: Seq<char>, from: int, lower: Seq<char>, upper: Seq<char>) -> bool {
    s.len() - from == lower.len() && forall|k: int|
        0 <= k < lower.len() ==> (#[trigger] s[from + k]) == lower[k] || s[from + k] == upper[k]
}

/// Whether `s` from `at` on is an exponent: `e` or `E`, an optional sign, and
/// one or more digits up to the end.
pub open spec fn is_exponent_at(s: Seq<char>, at: int) -> bool {
    let start = if at + 1 < s.len() && (s[at + 1] == '+' || s[at + 1] == '-') {
        at + 2
    } else {
        at + 1
    };
    0 <= at < s.len() && (s[at] == 'e' || s[at] == 'E') && start < s.len() && digits_between(
        s,
        start,
        s.len() as int,
    )
}

/// Whether `s` from `from` on is a decimal number whose whole part ends
/// before `dot` and whose mantissa ends before `end`: digits, then perhaps a
/// point and more digits, with a digit on at least one side, then perhaps an
/// exponent.
pub open spec fn number_split(s: Seq<char>, from: int, dot: int, end: int) -> bool {
    0 <= from <= dot <= end <= s.len() && digits_between(s, from, dot) && (end == dot || (s[dot]
        == '.' && digits_between(s, dot + 1, end))) && (dot > from || end > dot + 1) && (end
        == s.len() || is_exponent_at(s, end))
}

/// Whether `s` from `from` on is a decimal number with an optional exponent.
pub open spec fn is_number_from(s: Seq<char>, from: int) -> bool {
    exists|dot: int, end: int| number_split(s, from, dot, end)
}

/// Whether `s` writes a number with a fraction in the form that the standard
/// parser of 64-bit floats accepts: an optional sign, then `inf`, `infinity`
/// or `nan` in any case, or a decimal number with an optional exponent.
pub open spec fn is_float_text(s: Seq<char>) -> bool {
    let from: int = if has_sign(s) {
        1
    } else {
        0
    };
    spells(s, from, "inf"@, "INF"@) || spells(s, from, "infinity"@, "INFINITY"@) || spells(
        s,
        from,
        "nan"@,
        "NAN"@,
    ) || is_number_from(s, from)
}

fn spells_word(s: &str, from: usize, lower: &str, upper: &str) -> (r: bool)
    requires
        from <= s@.len(),
        lower@.len() == upper@.len(),
    ensures
        r == spells(s@, from as int, lower@, upper@),
{
    let len: usize = s.unicode_len();
    let word_len: usize = lower.unicode_len();
    if len - from != word_len {
        return false;
    }
    let mut k: usize = 0;
    while k < word_len
        invariant
            k <= word_len,
            word_len == lower@.len(),
            word_len == upper@.len(),
            len == s@.len(),
            len - from == word_len,
            forall|e: int|
                0 <= e < k ==> (#[trigger] s@[from + e]) == lower@[e] || s@[from + e] == upper@[e],
        decreases word_len - k,
    {
        let c: char = s.get_char(from + k);
        if c != lower.get_char(k) && c != upper.get_char(k) {
            assert(s@[from + k] == c);
            return false;
        }
        k = k + 1;
    }
    true
}

/// The place of the first character from `from` on that is no digit, or the
/// length of `s` where all of them are digits.
fn skip_digits(s: &str, from: usize) -> (to: usize)
    requires
        from <= s@.len(),
    ensures
        from <= to <= s@.len(),
        digits_between(s@, from as int, to as int),
        to < s@.len() ==> !is_digit(s@[to as int]),
{
    let len: usize = s.unicode_len();
    let mut to: usize = from;
    while to < len
        invariant
            from <= to <= len,
            len == s@.len(),
            digits_between(s@, from as int, to as int),
        decreases len - to,
    {
        let c: char = s.get_char(to);
        if !('0' <= c && c <= '9') {
            return to;
        }
        to = to + 1;
    }
    to
}

/// Tells whether a text writes a number with a fraction: whether the
/// standard parser of 64-bit floats would take it.
pub fn reads_as_float(s: &str) -> (r: bool)
    ensures
        r == is_float_text(s@),
{
    let len: usize = s.unicode_len();
    let from: usize = if len > 0 && (s.get_char(0) == '-' || s.get_char(0) == '+') {
        1
    } else {
        0
    };
    proof {
        reveal_strlit("inf");
        reveal_strlit("INF");
        reveal_strlit("infinity");
        reveal_strlit("INFINITY");
        reveal_strlit("nan");
        reveal_strlit("NAN");
    }
    if spells_word(s, from, "inf", "INF") || spells_word(s, from, "infinity", "INFINITY")
        || spells_word(s, from, "nan", "NAN") {
        return true;
    }
    let dot: usize = skip_digits(s, from);
    let end: usize = if dot < len && s.get_char(dot) == '.' {
        skip_digits(s, dot + 1)
    } else {
        dot
    };
    proof {
        // Any way to read the text as a number reads it as this scan does.
        assert forall|d: int, e: int| number_split(s@, from as int, d, e) implies d == dot && e
            == end by {
            if d < dot {
                assert(is_digit(s@[d]));
            }
            if dot < d {
                assert(is_digit(s@[dot as int]));
            }
            if e < end {
                assert(is_digit(s@[e]));
            }
            if end < e {
                assert(is_digit(s@[end as int]));
            }
        }
    }
    if !(dot > from || end > dot + 1) {
        return false;
    }
    if end == len {
        assert(number_split(s@, from as int, dot as int, end as int));
        return true;
    }
    let mark: char = s.get_char(end);
    if mark != 'e' && mark != 'E' {
        return false;
    }
    let start: usize = if end + 1 < len && (s.get_char(end + 1) == '+' || s.get_char(end + 1)
        == '-') {
        end + 2
    } else {
        end + 1
    };
    if start >= len {
        return false;
    }
    let stop: usize = skip_digits(s, start);
    if stop == len {
        assert(number_split(s@, from as int, dot as int, end as int));
        true
    } else {
        assert(!digits_between(s@, start as int, len as int));
        false
    }
}

} // verus!
