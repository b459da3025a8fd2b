//! Numbers as text: which texts are accepted, what they are worth, and how an
//! integer is written.

use vstd::prelude::*;

verus! {

/// The worth of the digit `c` in a base of at most 16; `None` for a character
/// that is no digit of that base.
pub open spec fn digit_worth(c: char, radix: int) -> Option<int> {
    let worth = if '0' <= c <= '9' {
        c as int - '0' as int
    } else if 'a' <= c <= 'f' {
        c as int - 'a' as int + 10
    } else if 'A' <= c <= 'F' {
        c as int - 'A' as int + 10
    } else {
        16
    };
    if worth < radix {
        Some(worth)
    } else {
        None
    }
}

/// Whether `s` holds nothing but digits.
pub open spec fn all_digits(s: Seq<char>, radix: int) -> bool {
    forall|i: int| 0 <= i < s.len() ==> digit_worth(#[trigger] s[i], radix) is Some
}

/// The number that the digits `s` denote.
pub open spec fn digits_worth(s: Seq<char>, radix: int) -> int
    decreases s.len(),
{
    if s.len() == 0 {
        0
    } else {
        digits_worth(s.drop_last(), radix) * radix + (match digit_worth(s.last(), radix) {
            Some(worth) => worth,
            None => 0,
        })
    }
}

/// The number that one or more digits denote.
pub open spec fn plain_number(s: Seq<char>, radix: int) -> Option<int> {
    if s.len() > 0 && all_digits(s, radix) {
        Some(digits_worth(s, radix))
    } else {
        None
    }
}

/// A number that may carry a plus sign.
pub open spec fn unsigned_number(s: Seq<char>, radix: int) -> Option<int> {
    if s.len() > 0 && s[0] == '+' {
        plain_number(s.skip(1), radix)
    } else {
        plain_number(s, radix)
    }
}

/// A decimal number that may carry a plus or a minus sign.
pub open spec fn signed_number(s: Seq<char>) -> Option<int> {
    if s.len() > 0 && s[0] == '-' {
        match plain_number(s.skip(1), 10) {
            Some(n) => Some(-n),
            None => None,
        }
    } else {
        unsigned_number(s, 10)
    }
}

/// `n`, where it lies between `low` and `high`.
pub open spec fn in_range(n: Option<int>, low: int, high: int) -> Option<int> {
    match n {
        Some(v) if low <= v <= high => Some(v),
        _ => None,
    }
}

/// The worth of a digit.
fn digit_of(c: char, radix: u32) -> (r: Option<u32>)
    requires
        radix <= 16,
    ensures
        match r {
            Some(worth) => digit_worth(c, radix as int) == Some(worth as int) && worth < radix,
            None => digit_worth(c, radix as int) is None,
        },
{
    let worth: u32 = if '0' <= c && c <= '9' {
        c as u32 - '0' as u32
    } else if 'a' <= c && c <= 'f' {
        c as u32 - 'a' as u32 + 10
    } else if 'A' <= c && c <= 'F' {
        c as u32 - 'A' as u32 + 10
    } else {
        16
    };
    if worth < radix {
        Some(worth)
    } else {
        None
    }
}

/// Leading digits are worth no more than the whole.
proof fn lemma_prefix_worth(s: Seq<char>, k: int, radix: int)
    requires
        0 <= k <= s.len(),
        1 <= radix <= 16,
    ensures
        0 <= digits_worth(s.take(k), radix) <= digits_worth(s, radix),
    decreases s.len(),
{
    if k < s.len() {
        lemma_prefix_worth(s.drop_last(), k, radix);
        assert(s.drop_last().take(k) =~= s.take(k));
        let head = digits_worth(s.drop_last(), radix);
        assert(head <= head * radix) by (nonlinear_arith)
            requires
                0 <= head,
                1 <= radix,
        ;
    } else {
        assert(s.take(k) =~= s);
        if s.len() > 0 {
            lemma_prefix_worth(s.drop_last(), k - 1, radix);
            assert(s.drop_last().take(k - 1) =~= s.drop_last());
            let head = digits_worth(s.drop_last(), radix);
            assert(0 <= head * radix) by (nonlinear_arith)
                requires
                    0 <= head,
                    1 <= radix,
            ;
        }
    }
}

/// Reads the digits from `from` to the end as a number of at most `limit`.
fn parse_digits(s: &Vec<char>, from: usize, radix: u32, limit: u64) -> (r: Option<u64>)
    requires
        from <= s@.len(),
        2 <= radix <= 16,
        limit <= u32::MAX,
    ensures
        match r {
            Some(v) => in_range(
                plain_number(s@.skip(from as int), radix as int),
                0,
                limit as int,
            ) == Some(v as int),
            None => in_range(
                plain_number(s@.skip(from as int), radix as int),
                0,
                limit as int,
            ) is None,
        },
{
    let ghost digits = s@.skip(from as int);
    let ghost base = radix as int;
    if from == s.len() {
        return None;
    }
    let mut acc: u64 = 0;
    let mut i: usize = from;
    while i < s.len()
        invariant
            from <= i <= s@.len(),
            2 <= radix <= 16,
            base == radix,
            limit <= u32::MAX,
            acc <= limit,
            digits == s@.skip(from as int),
            acc == digits_worth(digits.take(i - from), base),
            all_digits(digits.take(i - from), base),
        decreases s@.len() - i,
    {
        let ghost done = digits.take(i - from);
        let ghost next = digits.take(i + 1 - from);
        assert(next.drop_last() =~= done);
        assert(next.last() == s@[i as int]);
        match digit_of(s[i], radix) {
            Some(worth) => {
                assert(acc * radix <= 0xffff_ffff * 16) by (nonlinear_arith)
                    requires
                        0 <= acc <= 0xffff_ffff,
                        2 <= radix <= 16,
                ;
                acc = acc * radix as u64 + worth as u64;
                assert(all_digits(next, base)) by {
                    assert forall|k: int| 0 <= k < next.len() implies digit_worth(
                        #[trigger] next[k],
                        base,
                    ) is Some by {
                        if k < done.len() {
                            assert(done[k] == next[k]);
                        }
                    }
                }
                if acc > limit {
                    proof {
                        lemma_prefix_worth(digits, i + 1 - from, base);
                    }
                    return None;
                }
                i += 1;
            },
            None => {
                assert(digits[i - from] == s@[i as int]);
                return None;
            },
        }
    }
    assert(digits.take(i - from) =~= digits);
    Some(acc)
}

/// Reads an unsigned number of at most `limit`, which may carry a plus sign.
pub fn parse_unsigned(s: &Vec<char>, radix: u32, limit: u64) -> (r: Option<u64>)
    requires
        2 <= radix <= 16,
        limit <= u32::MAX,
    ensures
        match r {
            Some(v) => in_range(unsigned_number(s@, radix as int), 0, limit as int) == Some(
                v as int,
            ),
            None => in_range(unsigned_number(s@, radix as int), 0, limit as int) is None,
        },
{
    if s.len() > 0 && s[0] == '+' {
        parse_digits(s, 1, radix, limit)
    } else {
        assert(s@.skip(0) =~= s@);
        parse_digits(s, 0, radix, limit)
    }
}

/// The value of `s` as a decimal `i32`.
pub open spec fn i32_value(s: Seq<char>) -> Option<int> {
    in_range(signed_number(s), i32::MIN as int, i32::MAX as int)
}

/// The value of `s` as a decimal `u32`.
pub open spec fn u32_value(s: Seq<char>) -> Option<int> {
    in_range(unsigned_number(s, 10), 0, u32::MAX as int)
}

/// The value of `s` as a decimal `u16`.
pub open spec fn u16_value(s: Seq<char>) -> Option<int> {
    in_range(unsigned_number(s, 10), 0, u16::MAX as int)
}

/// The value of `s` as a decimal `u8`.
pub open spec fn u8_value(s: Seq<char>) -> Option<int> {
    in_range(unsigned_number(s, 10), 0, u8::MAX as int)
}

/// Reads a decimal `i32`: an optional sign, then only digits.
pub fn parse_i32(s: &Vec<char>) -> (r: Option<i32>)
    ensures
        match r {
            Some(v) => i32_value(s@) == Some(v as int),
            None => i32_value(s@) is None,
        },
{
    if s.len() > 0 && s[0] == '-' {
        proof {
            if all_digits(s@.skip(1), 10) {
                lemma_prefix_worth(s@.skip(1), 0, 10);
            }
        }
        match parse_digits(s, 1, 10, 0x8000_0000) {
            Some(v) => Some((-(v as i64)) as i32),
            None => None,
        }
    } else {
        proof {
            lemma_prefix_worth(s@, 0, 10);
            if s@.len() > 0 {
                lemma_prefix_worth(s@.skip(1), 0, 10);
            }
        }
        match parse_unsigned(s, 10, 0x7fff_ffff) {
            Some(v) => Some(v as i32),
            None => None,
        }
    }
}

/// Reads a decimal `u32`: an optional plus sign, then only digits.
pub fn parse_u32(s: &Vec<char>) -> (r: Option<u32>)
    ensures
        match r {
            Some(v) => u32_value(s@) == Some(v as int),
            None => u32_value(s@) is None,
        },
{
    match parse_unsigned(s, 10, 0xffff_ffff) {
        Some(v) => Some(v as u32),
        None => None,
    }
}

/// Reads a decimal `u16`: an optional plus sign, then only digits.
pub fn parse_u16(s: &Vec<char>) -> (r: Option<u16>)
    ensures
        match r {
            Some(v) => u16_value(s@) == Some(v as int),
            None => u16_value(s@) is None,
        },
{
    match parse_unsigned(s, 10, 0xffff) {
        Some(v) => Some(v as u16),
        None => None,
    }
}

/// Reads a decimal `u8`: an optional plus sign, then only digits.
pub fn parse_u8(s: &Vec<char>) -> (r: Option<u8>)
    ensures
        match r {
            Some(v) => u8_value(s@) == Some(v as int),
            None => u8_value(s@) is None,
        },
{
    match parse_unsigned(s, 10, 0xff) {
        Some(v) => Some(v as u8),
        None => None,
    }
}

/// The decimal digit worth `d`.
pub open spec fn digit_char(d: int) -> char {
    ('0' as int + d) as char
}

/// `n` in decimal digits, without leading zeros.
pub open spec fn decimal_text(n: nat) -> Seq<char>
    decreases n,
{
    if n < 10 {
        seq![digit_char(n as int)]
    } else {
        decimal_text(n / 10).push(digit_char((n % 10) as int))
    }
}

/// `n` in decimal digits, with a minus sign where it is negative.
pub open spec fn integer_text(n: int) -> Seq<char> {
    if n < 0 {
        seq!['-'] + decimal_text((-n) as nat)
    } else {
        decimal_text(n as nat)
    }
}

/// Appends `n` in decimal digits.
pub fn push_decimal(s: &mut String, n: u32)
    ensures
        final(s)@ == old(s)@ + decimal_text(n as nat),
    decreases n,
{
    if n >= 10 {
        push_decimal(s, n / 10);
    }
    s.push((48 + (n % 10)) as u8 as char);
    assert(s@ =~= old(s)@ + decimal_text(n as nat));
}

/// Appends `n`, with a minus sign where it is negative.
pub fn push_integer(s: &mut String, n: i32)
    ensures
        final(s)@ == old(s)@ + integer_text(n as int),
{
    if n < 0 {
        s.push('-');
        push_decimal(s, (-(n as i64)) as u32);
        assert(s@ =~= old(s)@ + integer_text(n as int));
    } else {
        push_decimal(s, n as u32);
    }
}

/// `n` as two decimal digits.
pub open spec fn two_digits(n: int) -> Seq<char> {
    seq![digit_char(n / 10), digit_char(n % 10)]
}

/// Appends `n` as two decimal digits.
pub fn push_two_digits(s: &mut String, n: u32)
    requires
        n < 100,
    ensures
        final(s)@ == old(s)@ + two_digits(n as int),
{
    s.push((48 + n / 10) as u8 as char);
    s.push((48 + n % 10) as u8 as char);
    assert(s@ =~= old(s)@ + two_digits(n as int));
}

/// `c` with an ASCII capital made small.
pub open spec fn small(c: char) -> char {
    if 'A' <= c <= 'Z' {
        (c as int + 32) as char
    } else {
        c
    }
}

/// Whether `s` spells the lower-case `word`, in capitals or small letters.
pub open spec fn spells(s: Seq<char>, word: Seq<char>) -> bool {
    &&& s.len() == word.len()
    &&& forall|i: int| 0 <= i < s.len() ==> small(#[trigger] s[i]) == word[i]
}

/// `s` without one leading sign.
pub open spec fn unsigned_part(s: Seq<char>) -> Seq<char> {
    if s.len() > 0 && (s[0] == '+' || s[0] == '-') {
        s.skip(1)
    } else {
        s
    }
}

/// The end of the run of decimal digits that starts at `i`.
pub open spec fn digits_end(s: Seq<char>, i: int) -> int
    decreases s.len() - i,
{
    if 0 <= i < s.len() && digit_worth(s[i], 10) is Some {
        digits_end(s, i + 1)
    } else {
        i
    }
}

/// Whether `s` is empty or a decimal exponent: `e`, an optional sign, digits.
pub open spec fn is_exponent(s: Seq<char>) -> bool {
    s.len() == 0 || (small(s[0]) == 'e' && plain_number(unsigned_part(s.skip(1)), 10) is Some)
}

/// Whether `s` is digits with at most one point among or beside them, and then
/// an optional exponent.
pub open spec fn is_decimal(s: Seq<char>) -> bool {
    let whole = digits_end(s, 0);
    if whole < s.len() && s[whole] == '.' {
        let end = digits_end(s, whole + 1);
        (whole > 0 || end > whole + 1) && is_exponent(s.skip(end))
    } else {
        whole > 0 && is_exponent(s.skip(whole))
    }
}

/// Whether `s` is the text of a real number: an optional sign, then `inf`,
/// `infinity`, `nan` or a decimal number.
pub open spec fn is_real(s: Seq<char>) -> bool {
    let body = unsigned_part(s);
    ||| spells(body, "inf"@)
    ||| spells(body, "infinity"@)
    ||| spells(body, "nan"@)
    ||| is_decimal(body)
}

/// `c` with an ASCII capital made small.
fn small_of(c: char) -> (r: char)
    ensures
        r == small(c),
{
    if 'A' <= c && c <= 'Z' {
        (c as u8 + 32) as char
    } else {
        c
    }
}

/// Whether the text from `from` on spells the lower-case `word`.
fn spells_from(s: &Vec<char>, from: usize, word: &str) -> (r: bool)
    requires
        from <= s@.len(),
    ensures
        r == spells(s@.skip(from as int), word@),
{
    let letters = crate::text::chars_of(word);
    let ghost rest = s@.skip(from as int);
    if letters.len() != s.len() - from {
        return false;
    }
    let mut i: usize = 0;
    while i < letters.len()
        invariant
            i <= letters@.len(),
            letters@ == word@,
            from + letters@.len() == s.len(),
            rest == s@.skip(from as int),
            forall|k: int| 0 <= k < i ==> small(#[trigger] rest[k]) == word@[k],
        decreases letters@.len() - i,
    {
        assert(rest[i as int] == s@[from + i]);
        if small_of(s[from + i]) != letters[i] {
            return false;
        }
        i += 1;
    }
    true
}

/// Where the digits from `from` on end.
fn digits_end_from(s: &Vec<char>, from: usize) -> (r: usize)
    requires
        from <= s@.len(),
    ensures
        r == digits_end(s@, from as int),
        from <= r <= s@.len(),
{
    let mut i: usize = from;
    while i < s.len() && digit_of(s[i], 10).is_some()
        invariant
            from <= i <= s@.len(),
            digits_end(s@, i as int) == digits_end(s@, from as int),
        decreases s@.len() - i,
    {
        i += 1;
    }
    i
}

/// A run of digits within a suffix is the same run within the whole.
proof fn lemma_digits_end(s: Seq<char>, from: int, i: int)
    requires
        0 <= from <= i <= s.len(),
    ensures
        digits_end(s.skip(from), i - from) == digits_end(s, i) - from,
        i <= digits_end(s, i) <= s.len(),
        forall|k: int| i <= k < digits_end(s, i) ==> digit_worth(#[trigger] s[k], 10) is Some,
        digits_end(s, i) < s.len() ==> digit_worth(s[digits_end(s, i)], 10) is None,
    decreases s.len() - i,
{
    if i < s.len() && digit_worth(s[i], 10) is Some {
        lemma_digits_end(s, from, i + 1);
    }
}

/// Whether the text from `from` on is empty or an exponent.
fn exponent_from(s: &Vec<char>, from: usize) -> (r: bool)
    requires
        from <= s@.len(),
    ensures
        r == is_exponent(s@.skip(from as int)),
{
    let ghost rest = s@.skip(from as int);
    if from == s.len() {
        return true;
    }
    assert(rest[0] == s@[from as int]);
    if small_of(s[from]) != 'e' {
        return false;
    }
    let mut at: usize = from + 1;
    assert(rest.skip(1) =~= s@.skip(at as int));
    if at < s.len() && (s[at] == '+' || s[at] == '-') {
        at += 1;
        assert(unsigned_part(rest.skip(1)) =~= s@.skip(at as int));
    }
    let ghost digits = s@.skip(at as int);
    assert(unsigned_part(rest.skip(1)) == digits);
    let end: usize = digits_end_from(s, at);
    proof {
        lemma_digits_end(s@, at as int, at as int);
        if end == s@.len() {
            assert forall|i: int| 0 <= i < digits.len() implies digit_worth(
                #[trigger] digits[i],
                10,
            ) is Some by {
                assert(digits[i] == s@[at + i]);
            }
        } else {
            assert(digits[end - at] == s@[end as int]);
        }
    }
    at < s.len() && end == s.len()
}

/// Whether the text from `from` on is a decimal number.
fn decimal_from(s: &Vec<char>, from: usize) -> (r: bool)
    requires
        from <= s@.len(),
    ensures
        r == is_decimal(s@.skip(from as int)),
{
    let ghost rest = s@.skip(from as int);
    let whole: usize = digits_end_from(s, from);
    proof {
        lemma_digits_end(s@, from as int, from as int);
    }
    if whole < s.len() && s[whole] == '.' {
        assert(rest[whole - from] == s@[whole as int]);
        let end: usize = digits_end_from(s, whole + 1);
        proof {
            lemma_digits_end(s@, from as int, whole + 1);
        }
        assert(rest.skip(end - from) =~= s@.skip(end as int));
        (whole > from || end > whole + 1) && exponent_from(s, end)
    } else {
        assert(whole < s@.len() ==> rest[whole - from] == s@[whole as int]);
        assert(rest.skip(whole - from) =~= s@.skip(whole as int));
        whole > from && exponent_from(s, whole)
    }
}

/// Whether `s` is the text of a real number.
pub fn is_real_number(s: &Vec<char>) -> (r: bool)
    ensures
        r == is_real(s@),
{
    let from: usize = if s.len() > 0 && (s[0] == '+' || s[0] == '-') {
        1
    } else {
        0
    };
    assert(s@.skip(0) =~= s@);
    assert(unsigned_part(s@) == s@.skip(from as int));
    spells_from(s, from, "inf") || spells_from(s, from, "infinity") || spells_from(s, from, "nan")
        || decimal_from(s, from)
}

/// The decimal text of `n` is digits only, is not empty, and denotes `n`.
proof fn lemma_decimal_text(n: nat)
    ensures
        decimal_text(n).len() > 0,
        all_digits(decimal_text(n), 10),
        digits_worth(decimal_text(n), 10) == n,
        digit_worth(decimal_text(n)[0], 10) is Some,
    decreases n,
{
    let d = (n % 10) as int;
    assert(digit_worth(digit_char(d), 10) == Some(d));
    if n < 10 {
        let s = seq![digit_char(n as int)];
        assert(s.drop_last() =~= Seq::empty());
        assert(digits_worth(s.drop_last(), 10) == 0);
    } else {
        lemma_decimal_text(n / 10);
        let head = decimal_text(n / 10);
        assert(head.push(digit_char(d)).drop_last() =~= head);
        assert(head.push(digit_char(d))[0] == head[0]);
    }
}

/// Writing an integer in decimal and reading it back gives the integer again.
pub proof fn law_integer_text_reads_back(n: int)
    ensures
        signed_number(integer_text(n)) == Some(n),
        n >= 0 ==> unsigned_number(integer_text(n), 10) == Some(n),
{
    if n < 0 {
        lemma_decimal_text((-n) as nat);
        assert(integer_text(n).skip(1) =~= decimal_text((-n) as nat));
    } else {
        lemma_decimal_text(n as nat);
    }
}

/// The text of an integer is one word.
pub proof fn lemma_integer_text_is_word(n: int)
    ensures
        crate::text::is_word(integer_text(n)),
{
    let size = if n < 0 {
        (-n) as nat
    } else {
        n as nat
    };
    let digits = decimal_text(size);
    let text = integer_text(n);
    lemma_decimal_text(size);
    assert forall|i: int| 0 <= i < text.len() implies !crate::text::is_white(#[trigger] text[i]) by {
        if n < 0 && i > 0 {
            assert(text[i] == digits[i - 1]);
        } else if n >= 0 {
            assert(text[i] == digits[i]);
        }
    }
}

/// The digits are `0` to `9`, and in base 16 also `a` to `f` and `A` to `F`, each
/// worth its place in that order; nothing else is a digit.  Bases in between have
/// the digits that are worth less than the base.
pub proof fn law_digits_have_their_worth(c: char, d: int)
    ensures
        forall|radix: int|
            0 <= radix <= 16 ==> (#[trigger] digit_worth(c, radix) == Some(d) <==> d < radix
                && digit_worth(c, 16) == Some(d)),
        digit_worth(c, 10) == Some(d) <==> 0 <= d < 10 && c as int == 48 + d,
        digit_worth(c, 16) == Some(d) <==> (0 <= d < 10 && c as int == 48 + d) || (10 <= d < 16 && (c
            as int == 55 + d || c as int == 87 + d)),
{
}

/// Digits are read from the left: none at all are no number, one is its worth,
/// and one more behind a number multiplies it by the base and adds its worth.
/// Anything else among them makes them no number.
pub proof fn law_numbers_are_read_digit_by_digit(s: Seq<char>, c: char, radix: int)
    requires
        2 <= radix <= 16,
    ensures
        plain_number(Seq::empty(), radix) is None,
        plain_number(seq![c], radix) == digit_worth(c, radix),
        s.len() > 0 && plain_number(s, radix) is Some && digit_worth(c, radix) is Some
            ==> plain_number(s.push(c), radix) == Some(
            plain_number(s, radix)->0 * radix + digit_worth(c, radix)->0,
        ),
        s.len() > 0 && (plain_number(s, radix) is None || digit_worth(c, radix) is None)
            ==> plain_number(s.push(c), radix) is None,
{
    let one = seq![c];
    let t = s.push(c);
    reveal_with_fuel(digits_worth, 2);
    assert(one.drop_last() =~= Seq::empty());
    assert(all_digits(one, radix) <==> digit_worth(c, radix) is Some) by {
        assert(one[0] == c);
    }
    assert(t.drop_last() =~= s);
    assert(t.last() == c);
    if s.len() > 0 {
        if all_digits(s, radix) && digit_worth(c, radix) is Some {
            assert forall|i: int| 0 <= i < t.len() implies digit_worth(
                #[trigger] t[i],
                radix,
            ) is Some by {
                if i < s.len() {
                    assert(t[i] == s[i]);
                }
            }
        } else if !all_digits(s, radix) {
            let i = choose|i: int| 0 <= i < s.len() && digit_worth(#[trigger] s[i], radix) is None;
            assert(t[i] == s[i]);
        } else {
            assert(t[s.len() as int] == c);
        }
    }
}

/// One sign may stand before a number, a plus before any and a minus before one
/// that may be negative; without a sign the digits stand for themselves.
pub proof fn law_signs_stand_before_numbers(s: Seq<char>, radix: int)
    ensures
        unsigned_number(seq!['+'] + s, radix) == plain_number(s, radix),
        signed_number(seq!['+'] + s) == plain_number(s, 10),
        signed_number(seq!['-'] + s) == (match plain_number(s, 10) {
            Some(n) => Some(-n),
            None => None,
        }),
        s.len() == 0 || s[0] != '+' ==> unsigned_number(s, radix) == plain_number(s, radix),
        s.len() == 0 || (s[0] != '+' && s[0] != '-') ==> signed_number(s) == plain_number(s, 10),
{
    assert((seq!['+'] + s).skip(1) =~= s);
    assert((seq!['-'] + s).skip(1) =~= s);
}

/// A text is a number of a type exactly where it is a number in that type's
/// range.
pub proof fn law_numbers_keep_to_their_range(s: Seq<char>, v: int)
    ensures
        i32_value(s) == Some(v) <==> signed_number(s) == Some(v) && -2_147_483_648 <= v
            <= 2_147_483_647,
        u32_value(s) == Some(v) <==> unsigned_number(s, 10) == Some(v) && 0 <= v <= 4_294_967_295,
        u16_value(s) == Some(v) <==> unsigned_number(s, 10) == Some(v) && 0 <= v <= 65_535,
        u8_value(s) == Some(v) <==> unsigned_number(s, 10) == Some(v) && 0 <= v <= 255,
        forall|n: Option<int>, low: int, high: int| #[trigger]
            in_range(n, low, high) == Some(v) <==> n == Some(v) && low <= v <= high,
{
}

/// The first digit of a decimal text is no zero, except of zero itself.
proof fn lemma_decimal_start(n: nat)
    ensures
        decimal_text(n).len() > 0,
        n > 0 ==> decimal_text(n)[0] != '0',
        n == 0 ==> decimal_text(n) == seq!['0'],
    decreases n,
{
    if n >= 10 {
        lemma_decimal_start(n / 10);
        assert(decimal_text(n)[0] == decimal_text(n / 10)[0]);
    } else {
        assert(digit_char(n as int) as int == 48 + n);
        assert(decimal_text(n) =~= seq![digit_char(n as int)]);
    }
}

/// An integer is written in the one usual way: decimal digits without needless
/// zeros, behind a minus where it is negative and behind nothing where it is not.
pub proof fn law_integers_are_written_plainly(n: int)
    ensures
        n >= 0 ==> plain_number(integer_text(n), 10) == Some(n),
        n > 0 ==> integer_text(n)[0] != '0',
        n == 0 ==> integer_text(n) == seq!['0'],
        n < 0 ==> integer_text(n) == seq!['-'] + integer_text(-n),
{
    if n >= 0 {
        lemma_decimal_text(n as nat);
        lemma_decimal_start(n as nat);
    }
}

/// Two digits are the tens and the ones.
pub proof fn law_two_digits_are_tens_and_ones(n: int)
    requires
        0 <= n < 100,
    ensures
        two_digits(n).len() == 2,
        digit_worth(two_digits(n)[0], 10) == Some(n / 10),
        digit_worth(two_digits(n)[1], 10) == Some(n % 10),
{
}

/// Whether `s` is `0` to `9` only.
pub open spec fn is_decimal_run(s: Seq<char>) -> bool {
    forall|i: int| 0 <= i < s.len() ==> 48 <= #[trigger] s[i] as int <= 57
}

/// Whether `s` is nothing or one sign.
pub open spec fn is_sign(s: Seq<char>) -> bool {
    s.len() == 0 || s == seq!['+'] || s == seq!['-']
}

/// The parts of a real number: sign, digits, point, digits, and an exponent with
/// its own sign and digits.
pub struct RealParts {
    pub sign: Seq<char>,
    pub whole: Seq<char>,
    pub point: Seq<char>,
    pub fraction: Seq<char>,
    pub mark: Seq<char>,
    pub exponent_sign: Seq<char>,
    pub exponent: Seq<char>,
}

/// Whether these are parts of a real number: there are digits before or behind
/// the point, none behind it without it, and an exponent has its mark and digits
/// or neither.
pub open spec fn parts_valid(p: RealParts) -> bool {
    &&& is_sign(p.sign)
    &&& is_decimal_run(p.whole)
    &&& is_decimal_run(p.fraction)
    &&& p.point.len() == 0 || p.point == seq!['.']
    &&& p.point.len() == 0 ==> p.fraction.len() == 0
    &&& p.whole.len() + p.fraction.len() > 0
    &&& p.mark.len() == 0 || p.mark == seq!['e'] || p.mark == seq!['E']
    &&& p.mark.len() == 0 ==> p.exponent_sign.len() == 0 && p.exponent.len() == 0
    &&& p.mark.len() > 0 ==> p.exponent.len() > 0
    &&& is_sign(p.exponent_sign)
    &&& is_decimal_run(p.exponent)
}

/// The text of the parts of a real number.
pub open spec fn parts_text(p: RealParts) -> Seq<char> {
    p.sign + (p.whole + p.point + p.fraction + (p.mark + (p.exponent_sign + p.exponent)))
}

/// A run of digits ends where something else, or the end, follows it.
proof fn lemma_digits_end_at(s: Seq<char>, i: int, end: int)
    requires
        0 <= i <= end <= s.len(),
        forall|k: int| i <= k < end ==> digit_worth(#[trigger] s[k], 10) is Some,
        end < s.len() ==> digit_worth(s[end], 10) is None,
    ensures
        digits_end(s, i) == end,
    decreases end - i,
{
    if i < end {
        lemma_digits_end_at(s, i + 1, end);
    }
}

/// An exponent is read with or without a sign.
proof fn lemma_exponent_text(p: RealParts)
    requires
        parts_valid(p),
    ensures
        is_exponent(p.mark + (p.exponent_sign + p.exponent)),
{
    let s = p.mark + (p.exponent_sign + p.exponent);
    if p.mark.len() > 0 {
        let rest = p.exponent_sign + p.exponent;
        assert(s.skip(1) =~= rest);
        assert(s[0] == p.mark[0]);
        assert(p.exponent[0] as int >= 48);
        assert(unsigned_part(rest) =~= p.exponent) by {
            if p.exponent_sign.len() == 0 {
                assert(rest =~= p.exponent);
            } else {
                assert(rest[0] == p.exponent_sign[0]);
                assert(rest.skip(1) =~= p.exponent);
            }
        }
        assert forall|i: int| 0 <= i < p.exponent.len() implies digit_worth(
            #[trigger] p.exponent[i],
            10,
        ) is Some by {}
    }
}

/// Every text made of the parts of a real number is one.
pub proof fn law_written_reals_are_real(p: RealParts)
    requires
        parts_valid(p),
    ensures
        is_real(parts_text(p)),
{
    let tail = p.mark + (p.exponent_sign + p.exponent);
    let body = p.whole + p.point + p.fraction + tail;
    let s = parts_text(p);
    lemma_exponent_text(p);
    assert(body.len() > 0);
    let a = p.whole.len() as int;
    let b = a + p.point.len();
    let c = b + p.fraction.len();
    assert forall|k: int| 0 <= k < a implies digit_worth(#[trigger] body[k], 10) is Some by {
        assert(body[k] == p.whole[k]);
    }
    assert forall|k: int| b <= k < c implies digit_worth(#[trigger] body[k], 10) is Some by {
        assert(body[k] == p.fraction[k - b]);
    }
    if c < body.len() {
        assert(body[c] == tail[0]);
        assert(tail[0] == p.mark[0]);
    }
    assert(body.skip(c) =~= tail);
    if p.point.len() > 0 {
        assert(body[a] == '.');
        lemma_digits_end_at(body, 0, a);
        lemma_digits_end_at(body, a + 1, c);
    } else {
        assert(c == a);
        lemma_digits_end_at(body, 0, a);
        if a < body.len() {
            assert(body[a] != '.');
        }
    }
    assert(is_decimal(body));
    assert(unsigned_part(s) =~= body) by {
        if p.sign.len() == 0 {
            assert(s =~= body);
            if a > 0 {
                assert(body[0] == p.whole[0]);
            } else {
                assert(body[0] == p.point[0]);
            }
        } else {
            assert(s[0] == p.sign[0]);
            assert(s.skip(1) =~= body);
        }
    }
}

/// The parts of an exponent.
proof fn lemma_exponent_parts(s: Seq<char>) -> (parts: (Seq<char>, Seq<char>, Seq<char>))
    requires
        is_exponent(s),
    ensures
        s == parts.0 + (parts.1 + parts.2),
        parts.0.len() == 0 || parts.0 == seq!['e'] || parts.0 == seq!['E'],
        parts.0.len() == 0 ==> parts.1.len() == 0 && parts.2.len() == 0,
        parts.0.len() > 0 ==> parts.2.len() > 0,
        is_sign(parts.1),
        is_decimal_run(parts.2),
{
    if s.len() == 0 {
        let none = Seq::<char>::empty();
        assert(s =~= none + (none + none));
        (none, none, none)
    } else {
        let rest = s.skip(1);
        let digits = unsigned_part(rest);
        let sign = rest.take(rest.len() - digits.len());
        let mark = s.take(1);
        assert(small(s[0]) == 'e');
        if 'A' <= s[0] <= 'Z' {
            assert(s[0] as int + 32 == 'e' as int);
            assert(s[0] == 'E');
        }
        assert(mark =~= seq![s[0]]);
        assert(rest =~= sign + digits);
        assert(s =~= mark + (sign + digits));
        if sign.len() > 0 {
            assert(sign =~= seq![rest[0]]);
        }
        assert forall|i: int| 0 <= i < digits.len() implies 48 <= #[trigger] digits[i] as int
            <= 57 by {
            assert(digit_worth(digits[i], 10) is Some);
        }
        (mark, sign, digits)
    }
}

/// Whether `s` spells one of the names `inf`, `infinity` and `nan`, each letter
/// small or capital.
pub open spec fn is_real_name(s: Seq<char>) -> bool {
    let small_or_capital = |i: int, code: int| s[i] as int == code || s[i] as int == code - 32;
    let inf = small_or_capital(0, 105) && small_or_capital(1, 110) && small_or_capital(2, 102);
    ||| s.len() == 3 && inf
    ||| s.len() == 8 && inf && small_or_capital(3, 105) && small_or_capital(4, 110)
        && small_or_capital(5, 105) && small_or_capital(6, 116) && small_or_capital(7, 121)
    ||| s.len() == 3 && small_or_capital(0, 110) && small_or_capital(1, 97) && small_or_capital(
        2,
        110,
    )
}

/// The names are spelled as they should be.
proof fn lemma_real_names(s: Seq<char>)
    ensures
        spells(s, "inf"@) || spells(s, "infinity"@) || spells(s, "nan"@) <==> is_real_name(s),
{
    reveal_strlit("inf");
    reveal_strlit("infinity");
    reveal_strlit("nan");
    if spells(s, "inf"@) || spells(s, "nan"@) {
        assert(small(s[0]) == "inf"@[0] || small(s[0]) == "nan"@[0]);
        assert(small(s[1]) == "inf"@[1] || small(s[1]) == "nan"@[1]);
        assert(small(s[2]) == "inf"@[2] || small(s[2]) == "nan"@[2]);
    }
    if spells(s, "infinity"@) {
        assert(small(s[0]) == 'i' && small(s[1]) == 'n' && small(s[2]) == 'f');
        assert(small(s[3]) == 'i' && small(s[4]) == 'n' && small(s[5]) == 'i');
        assert(small(s[6]) == 't' && small(s[7]) == 'y');
    }
}

/// A name of a real number is one, with or without a sign.
pub proof fn law_named_reals_are_real(sign: Seq<char>, name: Seq<char>)
    requires
        is_sign(sign),
        is_real_name(name),
    ensures
        is_real(sign + name),
{
    let s = sign + name;
    lemma_real_names(name);
    if sign.len() == 0 {
        assert(s =~= name);
        assert(unsigned_part(s) == s);
    } else {
        assert(s[0] == sign[0]);
        assert(s.skip(1) =~= name);
    }
}

/// Every real number is a name behind an optional sign, or made of the parts of
/// one.
pub proof fn law_reals_are_names_or_made_of_parts(s: Seq<char>)
    requires
        is_real(s),
    ensures
        is_real_name(s) || (s.len() > 0 && (s[0] == '+' || s[0] == '-') && is_real_name(s.skip(1)))
            || exists|p: RealParts| parts_valid(p) && s == #[trigger] parts_text(p),
{
    let body = unsigned_part(s);
    lemma_real_names(body);
    if is_decimal(body) && !is_real_name(body) {
        let sign = s.take(s.len() - body.len());
        if sign.len() > 0 {
            assert(sign =~= seq![s[0]]);
        }
        lemma_digits_end(body, 0, 0);
        let a = digits_end(body, 0);
        let whole = body.take(a);
        assert forall|i: int| 0 <= i < whole.len() implies 48 <= #[trigger] whole[i] as int
            <= 57 by {
            assert(whole[i] == body[i]);
            assert(digit_worth(body[i], 10) is Some);
        }
        let point = if a < body.len() && body[a] == '.' {
            seq!['.']
        } else {
            Seq::<char>::empty()
        };
        let b = a + point.len();
        let c = if point.len() > 0 {
            digits_end(body, a + 1)
        } else {
            a
        };
        if point.len() > 0 {
            lemma_digits_end(body, 0, a + 1);
        }
        let fraction = body.subrange(b, c);
        assert forall|i: int| 0 <= i < fraction.len() implies 48 <= #[trigger] fraction[i] as int
            <= 57 by {
            assert(fraction[i] == body[b + i]);
            assert(digit_worth(body[b + i], 10) is Some);
        }
        let tail = body.skip(c);
        let (mark, exponent_sign, exponent) = lemma_exponent_parts(tail);
        let p = RealParts { sign, whole, point, fraction, mark, exponent_sign, exponent };
        assert(body =~= whole + point + fraction + tail);
        assert(s =~= sign + body);
        assert(parts_valid(p) && s == parts_text(p));
    }
}

} // verus!
