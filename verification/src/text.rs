//! Strings as sequences of characters: decimal numbers, splitting, trimming
//! and the other text rules that the tunnel's messages and commands need.

use vstd::prelude::*;
#[allow(unused_imports)]
use vstd::string::*;

verus! {

/// `String::push` appends one character.
pub assume_specification[ String::push ](s: &mut String, ch: char)
    ensures
        final(s)@ == old(s)@.push(ch),
;

/// The error of `std::str::from_utf8`.
#[verifier::external_type_specification]
#[verifier::external_body]
pub struct ExUtf8Error(std::str::Utf8Error);

/// `std::str::from_utf8` takes bytes for a string where they are valid UTF-8,
/// and only there.
pub assume_specification[ std::str::from_utf8 ](v: &[u8]) -> (res: Result<
    &str,
    std::str::Utf8Error,
>)
    ensures
        match res {
            Ok(s) => vstd::utf8::valid_utf8(v@) && s.spec_bytes() == v@,
            Err(_) => !vstd::utf8::valid_utf8(v@),
        },
;

/// The character of a decimal digit.
pub open spec fn digit_char(d: nat) -> char {
    (48 + d) as char
}

/// The decimal digits of a natural number, most significant first, without
/// leading zeros.
pub open spec fn decimal(n: nat) -> Seq<char>
    decreases n,
{
    if n < 10 {
        seq![digit_char(n)]
    } else {
        decimal(n / 10).push(digit_char(n % 10))
    }
}

/// The decimal notation of `n`.
pub fn decimal_string(n: u64) -> (s: String)
    ensures
        s@ == decimal(n as nat),
    decreases n,
{
    let digit: u8 = 48 + (n % 10) as u8;
    if n < 10 {
        let mut s = String::new();
        s.push(digit as char);
        assert(s@ =~= decimal(n as nat));
        s
    } else {
        let mut s = decimal_string(n / 10);
        s.push(digit as char);
        s
    }
}

/// The characters of a string slice.
pub fn chars_of(s: &str) -> (v: Vec<char>)
    ensures
        v@ == s@,
{
    let mut v: Vec<char> = Vec::new();
    for c in it: s.chars()
        invariant
            it.seq() == s@,
            v@ == s@.take(it.index()),
    {
        v.push(c);
        assert(s@.take(it.index() + 1) =~= s@.take(it.index()).push(c));
    }
    assert(s@.take(s@.len() as int) =~= s@);
    v
}

/// The contents of strings.
pub open spec fn texts(strings: Seq<String>) -> Seq<Seq<char>> {
    strings.map_values(|s: String| s@)
}

/// Whether two strings hold the same characters.
pub fn same_text(a: &str, b: &str) -> (same: bool)
    ensures
        same == (a@ == b@),
{
    let a_chars = chars_of(a);
    let b_chars = chars_of(b);
    if a_chars.len() != b_chars.len() {
        return false;
    }
    let mut i: usize = 0;
    while i < a_chars.len()
        invariant
            i <= a_chars@.len(),
            a_chars@ == a@,
            b_chars@ == b@,
            a@.len() == b@.len(),
            a@.take(i as int) == b@.take(i as int),
        decreases a_chars@.len() - i,
    {
        if a_chars[i] != b_chars[i] {
            assert(a@[i as int] != b@[i as int]);
            return false;
        }
        assert(a@.take(i + 1) =~= a@.take(i as int).push(a@[i as int]));
        assert(b@.take(i + 1) =~= b@.take(i as int).push(b@[i as int]));
        i = i + 1;
    }
    assert(a@.take(i as int) =~= a@);
    assert(b@.take(i as int) =~= b@);
    true
}

/// Whether `chars` begin with `prefix`.
pub open spec fn begins_with(chars: Seq<char>, prefix: Seq<char>) -> bool {
    prefix.len() <= chars.len() && chars.take(prefix.len() as int) == prefix
}

/// Whether the characters at `at` are those of `prefix`.
fn matches_at(chars: &Vec<char>, at: usize, prefix: &Vec<char>) -> (found: bool)
    requires
        at <= chars@.len(),
    ensures
        found == begins_with(chars@.skip(at as int), prefix@),
{
    if chars.len() - at < prefix.len() {
        return false;
    }
    let ghost rest = chars@.skip(at as int);
    let mut i: usize = 0;
    while i < prefix.len()
        invariant
            i <= prefix@.len(),
            at + prefix@.len() <= chars@.len() <= usize::MAX,
            rest == chars@.skip(at as int),
            rest.take(i as int) == prefix@.take(i as int),
        decreases prefix@.len() - i,
    {
        if chars[at + i] != prefix[i] {
            assert(rest.take(prefix@.len() as int)[i as int] != prefix@[i as int]);
            return false;
        }
        assert(rest.take(i + 1) =~= rest.take(i as int).push(rest[i as int]));
        assert(prefix@.take(i + 1) =~= prefix@.take(i as int).push(prefix@[i as int]));
        i = i + 1;
    }
    assert(prefix@.take(i as int) =~= prefix@);
    true
}

/// Whether a string begins with another.
pub fn starts_with(s: &str, prefix: &str) -> (found: bool)
    ensures
        found == begins_with(s@, prefix@),
{
    let chars = chars_of(s);
    assert(chars@.skip(0) =~= s@);
    matches_at(&chars, 0, &chars_of(prefix))
}

/// The pieces of a text between the separators.
pub open spec fn pieces(chars: Seq<char>, separator: char) -> Seq<Seq<char>>
    decreases chars.len(),
{
    if chars.len() == 0 {
        seq![seq![]]
    } else {
        let before = pieces(chars.drop_last(), separator);
        if chars.last() == separator {
            before.push(seq![])
        } else {
            before.drop_last().push(before.last().push(chars.last()))
        }
    }
}

/// Cuts a string at the separators. There is always one piece at least.
pub fn split(s: &str, separator: char) -> (parts: Vec<String>)
    ensures
        texts(parts@) == pieces(s@, separator),
        parts@.len() >= 1,
{
    let chars = chars_of(s);
    let mut parts: Vec<String> = Vec::new();
    let mut part = String::new();
    let mut i: usize = 0;
    assert(s@.take(0) =~= seq![]);
    assert(pieces(s@.take(0), separator) =~= texts(parts@).push(part@));
    while i < chars.len()
        invariant
            i <= chars@.len(),
            chars@ == s@,
            pieces(s@.take(i as int), separator) == texts(parts@).push(part@),
        decreases chars@.len() - i,
    {
        let c: char = chars[i];
        let ghost before = texts(parts@).push(part@);
        assert(s@.take(i + 1).drop_last() =~= s@.take(i as int));
        assert(s@.take(i + 1).last() == c);
        if c == separator {
            parts.push(part);
            part = String::new();
            assert(texts(parts@) =~= before);
            assert(texts(parts@).push(part@) =~= before.push(seq![]));
        } else {
            part.push(c);
            assert(texts(parts@).push(part@) =~= before.drop_last().push(before.last().push(c)));
        }
        i = i + 1;
    }
    assert(s@.take(i as int) =~= s@);
    let ghost all = texts(parts@).push(part@);
    parts.push(part);
    assert(texts(parts@) =~= all);
    parts
}

/// A separator divides a text into what is before it and what is behind it.
pub proof fn law_pieces_divide(before: Seq<char>, separator: char, after: Seq<char>)
    ensures
        pieces(before.push(separator) + after, separator) == pieces(before, separator) + pieces(
            after,
            separator,
        ),
    decreases after.len(),
{
    let all = before.push(separator) + after;
    let front = pieces(before, separator);
    if after.len() == 0 {
        assert(all.drop_last() =~= before);
        assert(pieces(all, separator) =~= front + pieces(after, separator));
    } else {
        law_pieces_divide(before, separator, after.drop_last());
        lemma_some_piece(after.drop_last(), separator);
        assert(all.drop_last() =~= before.push(separator) + after.drop_last());
        assert(all.last() == after.last());
        assert(pieces(all, separator) =~= front + pieces(after, separator));
    }
}

proof fn lemma_some_piece(chars: Seq<char>, separator: char)
    ensures
        pieces(chars, separator).len() >= 1,
    decreases chars.len(),
{
    if chars.len() > 0 {
        lemma_some_piece(chars.drop_last(), separator);
    }
}

/// A text without separators is one piece.
pub proof fn law_one_piece(chars: Seq<char>, separator: char)
    requires
        !chars.contains(separator),
    ensures
        pieces(chars, separator) == seq![chars],
    decreases chars.len(),
{
    if chars.len() == 0 {
        assert(chars =~= seq![]);
    } else {
        assert forall|c: char| chars.drop_last().contains(c) implies chars.contains(c) by {
            let i = choose|i: int|
                0 <= i < chars.drop_last().len() && chars.drop_last()[i] == c;
            assert(chars[i] == c);
        }
        assert(chars[chars.len() - 1] != separator);
        law_one_piece(chars.drop_last(), separator);
        assert(chars.drop_last().push(chars.last()) =~= chars);
        assert(pieces(chars, separator) =~= seq![chars]);
    }
}

/// A number in decimal has no spaces in it.
pub proof fn lemma_no_space_in_decimal(n: nat)
    ensures
        !decimal(n).contains(' '),
{
    lemma_decimal_all_digits(n);
}

/// A number in decimal has no colons in it.
pub proof fn lemma_no_colon_in_decimal(n: nat)
    ensures
        !decimal(n).contains(':'),
{
    lemma_decimal_all_digits(n);
}

/// The number of a character.
fn code_point(c: char) -> (code: u32)
    ensures
        code as int == c as int,
{
    c as u32
}

/// Whether a character is white space (the property `White_Space` of Unicode).
pub open spec fn is_white_space(c: char) -> bool {
    let u = c as int;
    ||| 0x9 <= u <= 0xd
    ||| u == 0x20
    ||| u == 0x85
    ||| u == 0xa0
    ||| u == 0x1680
    ||| 0x2000 <= u <= 0x200a
    ||| u == 0x2028
    ||| u == 0x2029
    ||| u == 0x202f
    ||| u == 0x205f
    ||| u == 0x3000
}

fn white_space(c: char) -> (is: bool)
    ensures
        is == is_white_space(c),
{
    let u: u32 = code_point(c);
    (0x9 <= u && u <= 0xd) || u == 0x20 || u == 0x85 || u == 0xa0 || u == 0x1680 || (0x2000 <= u
        && u <= 0x200a) || u == 0x2028 || u == 0x2029 || u == 0x202f || u == 0x205f || u == 0x3000
}

/// A text without the white space that it begins with.
pub open spec fn without_leading_space(chars: Seq<char>) -> Seq<char>
    decreases chars.len(),
{
    if chars.len() > 0 && is_white_space(chars[0]) {
        without_leading_space(chars.drop_first())
    } else {
        chars
    }
}

/// A text without the white space that it ends with.
pub open spec fn without_trailing_space(chars: Seq<char>) -> Seq<char>
    decreases chars.len(),
{
    if chars.len() > 0 && is_white_space(chars.last()) {
        without_trailing_space(chars.drop_last())
    } else {
        chars
    }
}

/// A text without the white space round it.
pub open spec fn trimmed(chars: Seq<char>) -> Seq<char> {
    without_trailing_space(without_leading_space(chars))
}

/// Takes off the white space round a string.
pub fn trim(s: &str) -> (t: String)
    ensures
        t@ == trimmed(s@),
{
    let chars = chars_of(s);
    let mut start: usize = 0;
    assert(s@.skip(0) =~= s@);
    while start < chars.len() && white_space(chars[start])
        invariant
            start <= chars@.len(),
            chars@ == s@,
            without_leading_space(s@) == without_leading_space(s@.skip(start as int)),
        decreases chars@.len() - start,
    {
        assert(s@.skip(start as int).drop_first() =~= s@.skip(start + 1));
        start = start + 1;
    }
    let ghost rest = s@.skip(start as int);
    assert(without_leading_space(s@) == rest);
    let mut end: usize = chars.len();
    assert(rest.take(end - start) =~= rest);
    while end > start && white_space(chars[end - 1])
        invariant
            start <= end <= chars@.len(),
            chars@ == s@,
            rest == s@.skip(start as int),
            without_trailing_space(rest) == without_trailing_space(rest.take(end - start)),
        decreases end,
    {
        assert(rest.take(end - start).drop_last() =~= rest.take(end - 1 - start));
        assert(rest.take(end - start).last() == chars@[end - 1]);
        end = end - 1;
    }
    let ghost kept = rest.take(end - start);
    assert(end > start ==> kept.last() == chars@[end - 1]);
    let mut t = String::new();
    let mut i: usize = start;
    while i < end
        invariant
            start <= i <= end <= chars@.len(),
            chars@ == s@,
            t@ == s@.subrange(start as int, i as int),
        decreases end - i,
    {
        t.push(chars[i]);
        i = i + 1;
        assert(s@.subrange(start as int, i as int) =~= s@.subrange(start as int, i - 1).push(
            s@[i - 1],
        ));
    }
    assert(t@ =~= kept);
    t
}

/// Why a text is not a number.
#[derive(Debug, Clone, Copy, PartialEq, Eq, Structural)]
pub enum NumberError {
    Empty,
    InvalidDigit,
    TooLarge,
}

impl NumberError {
    pub open spec fn text(self) -> Seq<char> {
        match self {
            NumberError::Empty => "cannot parse integer from empty string"@,
            NumberError::InvalidDigit => "invalid digit found in string"@,
            NumberError::TooLarge => "number too large to fit in target type"@,
        }
    }

    pub fn to_string(&self) -> (s: String)
        ensures
            s@ == self.text(),
    {
        match self {
            NumberError::Empty => "cannot parse integer from empty string".to_string(),
            NumberError::InvalidDigit => "invalid digit found in string".to_string(),
            NumberError::TooLarge => "number too large to fit in target type".to_string(),
        }
    }
}

/// The number that `acc` becomes when the digits are written behind it. What is
/// wrong with them is what is wrong first, from left to right.
pub open spec fn digits_value(digits: Seq<char>, acc: nat, max: nat) -> Result<nat, NumberError>
    decreases digits.len(),
{
    if digits.len() == 0 {
        Ok(acc)
    } else {
        let d = digits[0] as int - 48;
        if !(0 <= d <= 9) {
            Err(NumberError::InvalidDigit)
        } else if acc * 10 + d > max {
            Err(NumberError::TooLarge)
        } else {
            digits_value(digits.drop_first(), (acc * 10 + d) as nat, max)
        }
    }
}

/// The number that a text stands for: digits, with a plus sign before them or
/// none.
pub open spec fn number_value(chars: Seq<char>, max: nat) -> Result<nat, NumberError> {
    if chars.len() == 0 {
        Err(NumberError::Empty)
    } else if chars.len() == 1 && chars[0] == '+' {
        Err(NumberError::InvalidDigit)
    } else if chars[0] == '+' {
        digits_value(chars.drop_first(), 0, max)
    } else {
        digits_value(chars, 0, max)
    }
}

/// Reads a decimal number that is not greater than `max`.
fn parse_number(chars: &Vec<char>, max: u32) -> (res: Result<u32, NumberError>)
    ensures
        match res {
            Ok(n) => number_value(chars@, max as nat) == Ok::<nat, NumberError>(n as nat),
            Err(e) => number_value(chars@, max as nat) == Err::<nat, NumberError>(e),
        },
        res matches Ok(n) ==> n <= max,
{
    if chars.len() == 0 {
        return Err(NumberError::Empty);
    }
    if chars.len() == 1 && chars[0] == '+' {
        return Err(NumberError::InvalidDigit);
    }
    let start: usize = if chars[0] == '+' {
        1
    } else {
        0
    };
    let ghost digits = chars@.skip(start as int);
    proof {
        if start == 1 {
            assert(digits =~= chars@.drop_first());
        } else {
            assert(digits =~= chars@);
        }
    }
    let mut n: u32 = 0;
    let mut i: usize = start;
    while i < chars.len()
        invariant
            start <= i <= chars@.len(),
            n <= max,
            number_value(chars@, max as nat) == digits_value(
                chars@.skip(i as int),
                n as nat,
                max as nat,
            ),
        decreases chars@.len() - i,
    {
        let code: u32 = code_point(chars[i]);
        assert(chars@.skip(i as int)[0] == chars@[i as int]);
        assert(chars@.skip(i as int).drop_first() =~= chars@.skip(i + 1));
        if code < 48 || code > 57 {
            return Err(NumberError::InvalidDigit);
        }
        let next: u64 = n as u64 * 10 + (code - 48) as u64;
        if next > max as u64 {
            return Err(NumberError::TooLarge);
        }
        n = next as u32;
        i = i + 1;
    }
    Ok(n)
}

/// Reads a number as one of 16 bits.
pub fn parse_u16(s: &str) -> (res: Result<u16, NumberError>)
    ensures
        match res {
            Ok(n) => number_value(s@, u16::MAX as nat) == Ok::<nat, NumberError>(n as nat),
            Err(e) => number_value(s@, u16::MAX as nat) == Err::<nat, NumberError>(e),
        },
{
    match parse_number(&chars_of(s), u16::MAX as u32) {
        Ok(n) => Ok(n as u16),
        Err(e) => Err(e),
    }
}

/// Reads a number as one of 32 bits.
pub fn parse_u32(s: &str) -> (res: Result<u32, NumberError>)
    ensures
        match res {
            Ok(n) => number_value(s@, u32::MAX as nat) == Ok::<nat, NumberError>(n as nat),
            Err(e) => number_value(s@, u32::MAX as nat) == Err::<nat, NumberError>(e),
        },
{
    parse_number(&chars_of(s), u32::MAX)
}

/// A text without every occurrence of `pattern`, looked for from left to right.
pub open spec fn without(chars: Seq<char>, pattern: Seq<char>) -> Seq<char>
    decreases chars.len(),
{
    if pattern.len() == 0 || chars.len() == 0 {
        chars
    } else if begins_with(chars, pattern) {
        without(chars.skip(pattern.len() as int), pattern)
    } else {
        seq![chars[0]] + without(chars.drop_first(), pattern)
    }
}

/// Takes every occurrence of `pattern` out of a string.
pub fn remove_all(s: &str, pattern: &str) -> (t: String)
    requires
        pattern@.len() > 0,
    ensures
        t@ == without(s@, pattern@),
{
    let chars = chars_of(s);
    let pattern_chars = chars_of(pattern);
    let mut t = String::new();
    let mut i: usize = 0;
    assert(s@.skip(0) =~= s@);
    assert(t@ + without(s@.skip(0), pattern@) =~= without(s@, pattern@));
    while i < chars.len()
        invariant
            i <= chars@.len(),
            chars@ == s@,
            pattern_chars@ == pattern@,
            pattern@.len() > 0,
            t@ + without(s@.skip(i as int), pattern@) == without(s@, pattern@),
        decreases chars@.len() - i,
    {
        let ghost rest = s@.skip(i as int);
        let ghost before = t@;
        if matches_at(&chars, i, &pattern_chars) {
            assert(rest.skip(pattern@.len() as int) =~= s@.skip(i + pattern@.len()));
            i = i + pattern_chars.len();
        } else {
            t.push(chars[i]);
            assert(rest.drop_first() =~= s@.skip(i + 1));
            assert(t@ + without(rest.drop_first(), pattern@) =~= before + without(rest, pattern@));
            i = i + 1;
        }
    }
    assert(without(s@.skip(i as int), pattern@) =~= seq![]);
    assert(t@ + seq![] =~= t@);
    t
}

proof fn lemma_digits_value_append(digits: Seq<char>, last: char, acc: nat, max: nat)
    ensures
        digits_value(digits.push(last), acc, max) == (match digits_value(digits, acc, max) {
            Ok(n) => digits_value(seq![last], n, max),
            Err(e) => Err(e),
        }),
    decreases digits.len(),
{
    if digits.len() == 0 {
        assert(digits.push(last) =~= seq![last]);
    } else {
        let d = digits[0] as int - 48;
        assert(digits.push(last).drop_first() =~= digits.drop_first().push(last));
        if 0 <= d <= 9 {
            lemma_digits_value_append(digits.drop_first(), last, (acc * 10 + d) as nat, max);
        }
    }
}

proof fn lemma_decimal_value(n: nat, max: nat)
    requires
        n <= max,
    ensures
        digits_value(decimal(n), 0, max) == Ok::<nat, NumberError>(n),
        decimal(n).len() >= 1,
        decimal(n)[0] != '+',
    decreases n,
{
    let last = digit_char(n % 10);
    assert(last as int == 48 + n % 10);
    assert(seq![last].drop_first() =~= seq![]);
    if n < 10 {
        assert(digits_value(seq![last], 0, max) == digits_value(seq![], n, max));
    } else {
        lemma_decimal_value(n / 10, max);
        lemma_digits_value_append(decimal(n / 10), last, 0, max);
        assert((n / 10) * 10 + n % 10 == n);
        assert(digits_value(seq![last], n / 10, max) == digits_value(seq![], n, max));
    }
}

/// A number that is written in decimal is read back.
pub proof fn law_written_number_is_read(n: nat, max: nat)
    requires
        n <= max,
    ensures
        number_value(decimal(n), max) == Ok::<nat, NumberError>(n),
{
    lemma_decimal_value(n, max);
}

/// A number is written digit by digit: one more digit is written behind the
/// others.
pub proof fn law_digits_are_written_in_order(n: nat, d: nat)
    requires
        d < 10,
    ensures
        decimal(d) == seq![(48 + d) as char],
        n > 0 ==> decimal(10 * n + d) == decimal(n).push((48 + d) as char),
{
    if n > 0 {
        assert((10 * n + d) / 10 == n);
        assert((10 * n + d) % 10 == d);
    }
}

/// A text begins with another exactly where it is that one and something more.
pub proof fn law_begins_with(chars: Seq<char>, prefix: Seq<char>, rest: Seq<char>)
    ensures
        begins_with(prefix + rest, prefix),
        begins_with(chars, prefix) ==> chars == prefix + chars.skip(prefix.len() as int),
{
    assert((prefix + rest).take(prefix.len() as int) =~= prefix);
    if begins_with(chars, prefix) {
        assert(chars =~= chars.take(prefix.len() as int) + chars.skip(prefix.len() as int));
    }
}

/// The white space: that of ASCII, and what Unicode adds to it.
pub proof fn law_white_space(c: char)
    ensures
        (c as int) < 0x80 ==> (is_white_space(c) <==> c == ' ' || 9 <= c as int <= 13),
        (c as int) >= 0x80 ==> (is_white_space(c) <==> {
            ||| seq![0x85int, 0xa0, 0x1680, 0x2028, 0x2029, 0x202f, 0x205f, 0x3000].contains(
                c as int,
            )
            ||| 0x2000 <= c as int <= 0x200a
        }),
{
    let others = seq![0x85int, 0xa0, 0x1680, 0x2028, 0x2029, 0x202f, 0x205f, 0x3000];
    if c as int == 0x85 {
        assert(others[0] == c as int);
    } else if c as int == 0xa0 {
        assert(others[1] == c as int);
    } else if c as int == 0x1680 {
        assert(others[2] == c as int);
    } else if c as int == 0x2028 {
        assert(others[3] == c as int);
    } else if c as int == 0x2029 {
        assert(others[4] == c as int);
    } else if c as int == 0x202f {
        assert(others[5] == c as int);
    } else if c as int == 0x205f {
        assert(others[6] == c as int);
    } else if c as int == 0x3000 {
        assert(others[7] == c as int);
    }
}

proof fn lemma_leading_space_push(chars: Seq<char>, c: char)
    ensures
        without_leading_space(chars.push(c)) == (if without_leading_space(chars).len() > 0 {
            without_leading_space(chars).push(c)
        } else if is_white_space(c) {
            seq![]
        } else {
            seq![c]
        }),
    decreases chars.len(),
{
    if chars.len() == 0 {
        assert(chars.push(c) =~= seq![c]);
        assert(seq![c].drop_first() =~= seq![]);
        assert(without_leading_space(seq![]) =~= seq![]);
    } else if is_white_space(chars[0]) {
        assert(chars.push(c).drop_first() =~= chars.drop_first().push(c));
        lemma_leading_space_push(chars.drop_first(), c);
    }
}

/// White space at either end comes off, and nothing else does.
pub proof fn law_space_comes_off(chars: Seq<char>, c: char)
    ensures
        is_white_space(c) ==> trimmed(seq![c] + chars) == trimmed(chars),
        is_white_space(c) ==> trimmed(chars.push(c)) == trimmed(chars),
        chars.len() == 0 ==> trimmed(chars) == chars,
        chars.len() > 0 && !is_white_space(chars[0]) && !is_white_space(chars.last()) ==> trimmed(
            chars,
        ) == chars,
{
    assert((seq![c] + chars).drop_first() =~= chars);
    lemma_leading_space_push(chars, c);
    let rest = without_leading_space(chars);
    if is_white_space(c) && rest.len() > 0 {
        assert(rest.push(c).drop_last() =~= rest);
    }
}

proof fn lemma_space_comes_off_around(before: Seq<char>, inner: Seq<char>, after: Seq<char>)
    requires
        forall|i: int| 0 <= i < before.len() ==> is_white_space(#[trigger] before[i]),
        forall|i: int| 0 <= i < after.len() ==> is_white_space(#[trigger] after[i]),
    ensures
        trimmed(before + inner + after) == trimmed(inner),
    decreases before.len() + after.len(),
{
    if before.len() > 0 {
        let rest = before.drop_first();
        assert(before + inner + after =~= seq![before[0]] + (rest + inner + after));
        assert forall|i: int| 0 <= i < rest.len() implies is_white_space(#[trigger] rest[i]) by {
            assert(rest[i] == before[i + 1]);
        }
        law_space_comes_off(rest + inner + after, before[0]);
        lemma_space_comes_off_around(rest, inner, after);
    } else if after.len() > 0 {
        let rest = after.drop_last();
        assert(before + inner + after =~= (before + inner + rest).push(after.last()));
        assert forall|i: int| 0 <= i < rest.len() implies is_white_space(#[trigger] rest[i]) by {
            assert(rest[i] == after[i]);
        }
        assert(is_white_space(after[after.len() - 1]));
        law_space_comes_off(before + inner + rest, after.last());
        lemma_space_comes_off_around(before, inner, rest);
    } else {
        assert(before + inner + after =~= inner);
    }
}

/// A number is read with white space round it once that is taken off.
pub proof fn law_number_amid_space_is_read(
    before: Seq<char>,
    n: nat,
    after: Seq<char>,
    max: nat,
)
    requires
        n <= max,
        forall|i: int| 0 <= i < before.len() ==> is_white_space(#[trigger] before[i]),
        forall|i: int| 0 <= i < after.len() ==> is_white_space(#[trigger] after[i]),
    ensures
        number_value(trimmed(before + decimal(n) + after), max) == Ok::<nat, NumberError>(n),
{
    lemma_space_comes_off_around(before, decimal(n), after);
    lemma_decimal_all_digits(n);
    lemma_decimal_value(n, max);
    law_space_comes_off(decimal(n), '0');
    law_written_number_is_read(n, max);
}

proof fn lemma_decimal_all_digits(n: nat)
    ensures
        decimal(n).len() > 0,
        forall|i: int| 0 <= i < decimal(n).len() ==> 48 <= (#[trigger] decimal(n)[i]) as int <= 57,
    decreases n,
{
    let last = digit_char(n % 10);
    assert(last as int == 48 + n % 10);
    if n >= 10 {
        lemma_decimal_all_digits(n / 10);
        assert forall|i: int| 0 <= i < decimal(n).len() implies 48 <= (#[trigger] decimal(
            n,
        )[i]) as int <= 57 by {
            if i < decimal(n / 10).len() {
                assert(decimal(n)[i] == decimal(n / 10)[i]);
            }
        }
    }
}

/// A number that is too large is refused as that.
pub proof fn law_too_large_number_is_refused(n: nat, max: nat)
    requires
        n > max,
    ensures
        number_value(decimal(n), max) == Err::<nat, NumberError>(NumberError::TooLarge),
{
    lemma_decimal_too_large(n, max);
    lemma_decimal_all_digits(n);
}

proof fn lemma_decimal_too_large(n: nat, max: nat)
    requires
        n > max,
    ensures
        digits_value(decimal(n), 0, max) == Err::<nat, NumberError>(NumberError::TooLarge),
    decreases n,
{
    let last = digit_char(n % 10);
    assert(last as int == 48 + n % 10);
    if n >= 10 {
        lemma_digits_value_append(decimal(n / 10), last, 0, max);
        if n / 10 > max {
            lemma_decimal_too_large(n / 10, max);
        } else {
            lemma_decimal_value(n / 10, max);
            assert((n / 10) * 10 + n % 10 == n);
        }
    }
}

/// How one more character changes what a text is read as: a digit is written
/// behind the number, if there is room; anything else, and what was wrong before,
/// is refused. One character alone is a number exactly where it is a digit.
pub proof fn law_number_is_read_from_left_to_right(chars: Seq<char>, c: char, max: nat)
    requires
        max >= 9,
    ensures
        number_value(seq![], max) == Err::<nat, NumberError>(NumberError::Empty),
        number_value(seq![c], max) == (if 48 <= c as int <= 57 {
            Ok((c as int - 48) as nat)
        } else {
            Err(NumberError::InvalidDigit)
        }),
        number_value(chars, max) matches Ok(n) ==> {
            &&& n <= max
            &&& number_value(chars.push(c), max) == (if !(48 <= c as int <= 57) {
                Err(NumberError::InvalidDigit)
            } else if n * 10 + (c as int - 48) > max {
                Err(NumberError::TooLarge)
            } else {
                Ok((n * 10 + (c as int - 48)) as nat)
            })
        },
        number_value(chars, max) matches Err(e) ==> (chars.len() > 0 && chars != seq!['+'] ==> 
            number_value(chars.push(c), max) == Err::<nat, NumberError>(e)),
        chars.len() > 0 && chars[0] != '+' ==> number_value(seq!['+'] + chars, max) == number_value(
            chars,
            max,
        ),
{
    reveal_with_fuel(digits_value, 2);
    assert(seq![c].drop_first() =~= seq![]);
    assert((seq!['+'] + chars).drop_first() =~= chars);
    if chars.len() > 0 {
        assert(chars.push(c)[0] == chars[0]);
        if chars.len() == 1 {
            assert(chars =~= seq![chars[0]]);
        }
        if chars[0] == '+' {
            assert(chars.push(c).drop_first() =~= chars.drop_first().push(c));
            lemma_digits_value_append(chars.drop_first(), c, 0, max);
            lemma_digits_value_bounded(chars.drop_first(), 0, max);
        } else {
            lemma_digits_value_append(chars, c, 0, max);
            lemma_digits_value_bounded(chars, 0, max);
        }
    }
}

proof fn lemma_digits_value_bounded(digits: Seq<char>, acc: nat, max: nat)
    requires
        acc <= max,
    ensures
        digits_value(digits, acc, max) matches Ok(n) ==> n <= max,
    decreases digits.len(),
{
    if digits.len() > 0 {
        let d = digits[0] as int - 48;
        if 0 <= d <= 9 && acc * 10 + d <= max {
            lemma_digits_value_bounded(digits.drop_first(), (acc * 10 + d) as nat, max);
        }
    }
}

/// Why a text is not a number is said as the standard library says it.
pub proof fn law_number_error_texts()
    ensures
        NumberError::Empty.text() == "cannot parse integer from empty string"@,
        NumberError::InvalidDigit.text() == "invalid digit found in string"@,
        NumberError::TooLarge.text() == "number too large to fit in target type"@,
{
}

/// What is taken out of a text: the pattern where it stands, and nothing where it
/// does not.
pub proof fn law_pattern_is_taken_out(chars: Seq<char>, pattern: Seq<char>)
    requires
        pattern.len() > 0,
    ensures
        without(pattern + chars, pattern) == without(chars, pattern),
        chars.len() > 0 && !begins_with(chars, pattern) ==> without(chars, pattern) == seq![
            chars[0],
        ] + without(chars.drop_first(), pattern),
        without(seq![], pattern).len() == 0,
{
    law_begins_with(chars, pattern, chars);
    assert((pattern + chars).skip(pattern.len() as int) =~= chars);
}

/// The contents of strings are the contents of each, in order.
pub proof fn law_texts(strings: Seq<String>)
    ensures
        texts(strings).len() == strings.len(),
        forall|i: int| 0 <= i < strings.len() ==> #[trigger] texts(strings)[i] == strings[i]@,
{
}

} // verus!
