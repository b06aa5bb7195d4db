//! Hexadecimal numbers on the command line: `1b520`, `0x1b520`, `0X1B520`.
use vstd::prelude::*;

use crate::text;

verus! {

/// Why a text is not a hexadecimal number.
#[derive(Clone, Copy, Debug, PartialEq, Eq, Structural)]
pub enum HexError {
    /// There is nothing to read.
    Empty,
    /// A character is not a hexadecimal digit.
    InvalidDigit,
    /// The number does not fit in the integer type asked for.
    TooLarge,
}

pub open spec fn is_hex_digit(c: char) -> bool {
    '0' <= c <= '9' || 'a' <= c <= 'f' || 'A' <= c <= 'F'
}

/// The value of one digit, in either letter case.
pub open spec fn hex_digit_value(c: char) -> nat {
    if '0' <= c <= '9' {
        (c as int - '0' as int) as nat
    } else if 'a' <= c <= 'f' {
        (c as int - 'a' as int + 10) as nat
    } else {
        (c as int - 'A' as int + 10) as nat
    }
}

pub open spec fn all_hex_digits(s: Seq<char>) -> bool {
    forall|i: int| 0 <= i < s.len() ==> is_hex_digit(#[trigger] s[i])
}

/// The number that a sequence of digits stands for, the most significant digit first.
pub open spec fn hex_value(s: Seq<char>) -> nat
    decreases s.len(),
{
    if s.len() == 0 {
        0
    } else {
        hex_value(s.drop_last()) * 16 + hex_digit_value(s.last())
    }
}

/// Some run of digits at the start of `s` already exceeds `max`.
pub open spec fn exceeds(s: Seq<char>, max: nat) -> bool {
    exists|k: int|
        0 <= k <= s.len() && all_hex_digits(#[trigger] s.take(k)) && hex_value(s.take(k)) > max
}

/// `s` without one plus sign in front, unless the sign is all there is.
pub open spec fn without_plus(s: Seq<char>) -> Seq<char> {
    if s.len() > 1 && s[0] == '+' {
        s.skip(1)
    } else {
        s
    }
}

/// What `s` reads as, up to `max`. The error is the one met first from left to right.
pub open spec fn hex_number(s: Seq<char>, max: nat) -> Result<nat, HexError> {
    if s.len() == 0 {
        Err(HexError::Empty)
    } else if exceeds(without_plus(s), max) {
        Err(HexError::TooLarge)
    } else if !all_hex_digits(without_plus(s)) {
        Err(HexError::InvalidDigit)
    } else {
        Ok(hex_value(without_plus(s)))
    }
}

/// `s` with `prefix` taken off its front as often as it stands there.
pub open spec fn strip_all(s: Seq<char>, prefix: Seq<char>) -> Seq<char>
    decreases s.len(),
{
    if 0 < prefix.len() <= s.len() && s.take(prefix.len() as int) == prefix {
        strip_all(s.skip(prefix.len() as int), prefix)
    } else {
        s
    }
}

/// What is left of `s` once every `0x` and then every `0X` is off its front.
pub open spec fn bare(s: Seq<char>) -> Seq<char> {
    strip_all(strip_all(s, seq!['0', 'x']), seq!['0', 'X'])
}

impl HexError {
    /// The error in words.
    pub open spec fn words(self) -> Seq<char> {
        match self {
            HexError::Empty => "cannot parse integer from empty string"@,
            HexError::InvalidDigit => "invalid digit found in string"@,
            HexError::TooLarge => "number too large to fit in target type"@,
        }
    }

    /// The error in words.
    pub fn text(self) -> (text: &'static str)
        ensures
            text@ == self.words(),
    {
        match self {
            HexError::Empty => "cannot parse integer from empty string",
            HexError::InvalidDigit => "invalid digit found in string",
            HexError::TooLarge => "number too large to fit in target type",
        }
    }
}

/// Digits added to the end of a number never make it smaller.
proof fn lemma_hex_value_grows(s: Seq<char>, i: int, j: int)
    requires
        0 <= i <= j <= s.len(),
    ensures
        hex_value(s.take(i)) <= hex_value(s.take(j)),
    decreases j - i,
{
    if i < j {
        lemma_hex_value_grows(s, i, j - 1);
        assert(s.take(j).drop_last() == s.take(j - 1));
    }
}

/// The value of a digit, or `None` if `c` is no hexadecimal digit.
fn digit_of(c: char) -> (value: Option<u64>)
    ensures
        value is Some <==> is_hex_digit(c),
        value matches Some(v) ==> v == hex_digit_value(c) && v < 16,
{
    if '0' <= c && c <= '9' {
        Some(c as u64 - '0' as u64)
    } else if 'a' <= c && c <= 'f' {
        Some(c as u64 - 'a' as u64 + 10)
    } else if 'A' <= c && c <= 'F' {
        Some(c as u64 - 'A' as u64 + 10)
    } else {
        None
    }
}

/// Reads the digits of `chars` from `start` on.
fn digits_from(chars: &Vec<char>, start: usize, max: u64) -> (number: Result<u64, HexError>)
    requires
        start < chars@.len(),
        max >= 15,
    ensures
        ({
            let s = chars@.skip(start as int);
            match number {
                Ok(v) => !exceeds(s, max as nat) && all_hex_digits(s) && v == hex_value(s),
                Err(HexError::Empty) => false,
                Err(HexError::TooLarge) => exceeds(s, max as nat),
                Err(HexError::InvalidDigit) => !exceeds(s, max as nat) && !all_hex_digits(s),
            }
        }),
        number matches Ok(v) ==> v <= max,
{
    let ghost s = chars@.skip(start as int);
    let mut value: u64 = 0;
    let mut i: usize = start;
    while i < chars.len()
        invariant
            start <= i <= chars@.len(),
            max >= 15,
            s == chars@.skip(start as int),
            all_hex_digits(s.take(i - start)),
            value == hex_value(s.take(i - start)),
            value <= max,
        decreases chars@.len() - i,
    {
        let c: char = chars[i];
        let ghost k = i - start;
        assert(s.take(k + 1).drop_last() == s.take(k));
        assert(s.take(k + 1).last() == c);
        match digit_of(c) {
            None => {
                proof {
                    assert(!is_hex_digit(s[k]));
                    assert forall|j: int|
                        0 <= j <= s.len() && all_hex_digits(#[trigger] s.take(j)) implies hex_value(
                        s.take(j),
                    ) <= max by {
                        if j > k {
                            assert(s.take(j)[k] == s[k]);
                        } else {
                            lemma_hex_value_grows(s, j, k);
                        }
                    }
                }
                return Err(HexError::InvalidDigit);
            },
            Some(d) => {
                assert(all_hex_digits(s.take(k + 1))) by {
                    assert forall|j: int| 0 <= j < k + 1 implies is_hex_digit(
                        #[trigger] s.take(k + 1)[j],
                    ) by {
                        if j < k {
                            assert(s.take(k)[j] == s.take(k + 1)[j]);
                        }
                    }
                }
                assert(hex_value(s.take(k + 1)) == value * 16 + d);
                if value > max / 16 || value * 16 > max - d {
                    return Err(HexError::TooLarge);
                }
                value = value * 16 + d;
            },
        }
        i = i + 1;
    }
    proof {
        assert(s.take(s.len() as int) == s);
        assert forall|j: int| 0 <= j <= s.len() implies hex_value(#[trigger] s.take(j)) <= max by {
            lemma_hex_value_grows(s, j, s.len() as int);
        }
    }
    Ok(value)
}

/// Where `chars` goes on, from `start`, once every `0` followed by `x` is skipped.
fn skip_prefixes(chars: &Vec<char>, start: usize, x: char) -> (end: usize)
    requires
        start <= chars@.len(),
    ensures
        start <= end <= chars@.len(),
        chars@.skip(end as int) == strip_all(chars@.skip(start as int), seq!['0', x]),
{
    let ghost prefix = seq!['0', x];
    let mut at: usize = start;
    while chars.len() - at > 1 && chars[at] == '0' && chars[at + 1] == x
        invariant
            start <= at <= chars@.len(),
            prefix == seq!['0', x],
            strip_all(chars@.skip(at as int), prefix) == strip_all(
                chars@.skip(start as int),
                prefix,
            ),
        decreases chars@.len() - at,
    {
        let ghost rest = chars@.skip(at as int);
        assert(rest.take(2) == prefix);
        assert(rest.skip(2) == chars@.skip(at + 2));
        at = at + 2;
    }
    proof {
        let rest = chars@.skip(at as int);
        if rest.len() >= 2 && rest.take(2) == prefix {
            assert(rest.take(2)[0] == rest[0] && rest.take(2)[1] == rest[1]);
            assert(prefix[0] == '0' && prefix[1] == x);
        }
    }
    at
}

/// Reads `s` as a hexadecimal number of at most `max`, with or without `0x` in front.
pub fn parse_hex(s: &str, max: u64) -> (number: Result<u64, HexError>)
    requires
        max >= 15,
    ensures
        match hex_number(bare(s@), max as nat) {
            Ok(v) => number is Ok && number->Ok_0 == v,
            Err(e) => number is Err && number->Err_0 == e,
        },
        number matches Ok(v) ==> v <= max,
{
    let chars: Vec<char> = text::chars_of(s);
    assert(chars@.skip(0) == chars@);
    let lower: usize = skip_prefixes(&chars, 0, 'x');
    let start: usize = skip_prefixes(&chars, lower, 'X');
    let ghost rest = chars@.skip(start as int);
    assert(rest == bare(s@));
    if start == chars.len() {
        return Err(HexError::Empty);
    }
    if chars.len() - start > 1 && chars[start] == '+' {
        assert(chars@.skip(start + 1) == rest.skip(1));
        digits_from(&chars, start + 1, max)
    } else {
        digits_from(&chars, start, max)
    }
}

/// The message for a value that `kind` of number could not be read from.
fn complaint(kind: &str, error: HexError) -> (message: String)
    ensures
        message@ == kind@ + error.words(),
{
    let mut message: String = kind.to_owned();
    message.append(error.text());
    message
}

/// Reads an address.
pub fn parse_hex_usize(s: &str) -> (number: Result<usize, String>)
    ensures
        match hex_number(bare(s@), usize::MAX as nat) {
            Ok(v) => number is Ok && number->Ok_0 == v,
            Err(e) => number is Err && number->Err_0@ == "not a hex address: "@ + e.words(),
        },
{
    match parse_hex(s, usize::MAX as u64) {
        Ok(v) => Ok(v as usize),
        Err(e) => Err(complaint("not a hex address: ", e)),
    }
}

/// Reads an offset of 32 bits.
pub fn parse_hex_u32(s: &str) -> (number: Result<u32, String>)
    ensures
        match hex_number(bare(s@), u32::MAX as nat) {
            Ok(v) => number is Ok && number->Ok_0 == v,
            Err(e) => number is Err && number->Err_0@ == "not a hex u32: "@ + e.words(),
        },
{
    match parse_hex(s, u32::MAX as u64) {
        Ok(v) => Ok(v as u32),
        Err(e) => Err(complaint("not a hex u32: ", e)),
    }
}

/// `0x` in front of a text changes nothing.
pub proof fn law_prefix_is_optional(s: Seq<char>)
    ensures
        bare(seq!['0', 'x'] + s) == bare(s),
{
    let prefix = seq!['0', 'x'];
    assert((prefix + s).take(2) == prefix);
    assert((prefix + s).skip(2) == s);
}

/// `0X` in front of a text changes nothing, unless the text itself starts with `0x`.
pub proof fn law_upper_prefix_is_optional(s: Seq<char>)
    requires
        !(s.len() >= 2 && s[0] == '0' && s[1] == 'x'),
    ensures
        bare(seq!['0', 'X'] + s) == bare(s),
{
    let upper = seq!['0', 'X'];
    let lower = seq!['0', 'x'];
    let full = upper + s;
    assert(full.take(2) == upper && full.skip(2) == s);
    assert(lower[1] == 'x' && full.take(2)[1] == 'X');
    assert(strip_all(full, lower) == full);
    if s.len() >= 2 {
        assert(s.take(2)[0] == s[0] && s.take(2)[1] == s[1]);
        assert(lower[0] == '0');
    }
    assert(strip_all(s, lower) == s);
}

/// The numeral of `n` is made of digits and has the value `n`.
proof fn lemma_numeral_has_its_value(n: nat)
    ensures
        all_hex_digits(text::hex(n)),
        text::hex(n).len() > 0,
        hex_value(text::hex(n)) == n,
        n < 16 <==> text::hex(n).len() == 1,
    decreases n,
{
    if n < 16 {
        assert(text::hex(n).drop_last() == Seq::<char>::empty());
        assert(hex_value(text::hex(n).drop_last()) == 0);
        assert(text::hex(n).last() == text::digit_char(n as int));
    } else {
        lemma_numeral_has_its_value(n / 16);
        assert(text::hex(n).drop_last() == text::hex(n / 16));
        assert(text::hex(n).last() == text::digit_char((n % 16) as int));
        assert forall|i: int| 0 <= i < text::hex(n).len() implies is_hex_digit(#[trigger] text::hex(n)[i]) by {
            if i < text::hex(n).len() - 1 {
                assert(text::hex(n)[i] == text::hex(n / 16)[i]);
            }
        }
    }
}

/// Zeros in front of a number do not change its value.
proof fn lemma_leading_zeros(zeros: Seq<char>, s: Seq<char>)
    requires
        forall|i: int| 0 <= i < zeros.len() ==> zeros[i] == '0',
    ensures
        hex_value(zeros + s) == hex_value(s),
    decreases zeros.len() + s.len(),
{
    if s.len() > 0 {
        assert((zeros + s).drop_last() == zeros + s.drop_last());
        lemma_leading_zeros(zeros, s.drop_last());
    } else if zeros.len() > 0 {
        assert((zeros + s).drop_last() == zeros.drop_last() + s);
        lemma_leading_zeros(zeros.drop_last(), s);
    }
}

/// Digits that stand for a number of at most `max` read as that number.
proof fn lemma_digits_read_back(s: Seq<char>, n: nat, max: nat)
    requires
        s.len() > 0,
        all_hex_digits(s),
        hex_value(s) == n,
        n <= max,
    ensures
        bare(s) == s,
        hex_number(s, max) == Ok::<nat, HexError>(n),
{
    if s.len() >= 2 {
        assert(is_hex_digit(s[1]));
        assert(s.take(2)[1] == s[1]);
        assert(seq!['0', 'x'][1] == 'x' && seq!['0', 'X'][1] == 'X');
    }
    assert(is_hex_digit(s[0]));
    assert(without_plus(s) == s);
    assert forall|k: int| 0 <= k <= s.len() implies hex_value(#[trigger] s.take(k)) <= max by {
        lemma_hex_value_grows(s, k, s.len() as int);
        assert(s.take(s.len() as int) == s);
    }
}

/// A number that is printed in hexadecimal reads back as itself, wherever it fits: bare, with `0x`
/// or `0X` in front, and as sixteen digits.
pub proof fn law_printed_number_reads_back(n: u64, max: nat)
    requires
        n <= max,
    ensures
        hex_number(bare(text::hex(n as nat)), max) == Ok::<nat, HexError>(n as nat),
        hex_number(bare(seq!['0', 'x'] + text::hex(n as nat)), max) == Ok::<nat, HexError>(n as nat),
        hex_number(bare(seq!['0', 'X'] + text::hex(n as nat)), max) == Ok::<nat, HexError>(n as nat),
        hex_number(bare(text::hex16(n)), max) == Ok::<nat, HexError>(n as nat),
        hex_number(bare(seq!['0', 'x'] + text::hex16(n)), max) == Ok::<nat, HexError>(n as nat),
{
    let plain = text::hex(n as nat);
    lemma_numeral_has_its_value(n as nat);
    lemma_digits_read_back(plain, n as nat, max);
    law_prefix_is_optional(plain);
    if plain.len() >= 2 {
        assert(is_hex_digit(plain[1]));
    }
    law_upper_prefix_is_optional(plain);
    let wide = text::hex16(n);
    if plain.len() < 16 {
        let zeros = Seq::new((16 - plain.len()) as nat, |i: int| '0');
        assert(wide == zeros + plain);
        lemma_leading_zeros(zeros, plain);
        assert forall|i: int| 0 <= i < wide.len() implies is_hex_digit(#[trigger] wide[i]) by {
            if i >= zeros.len() {
                assert(wide[i] == plain[i - zeros.len()]);
            }
        }
    }
    lemma_digits_read_back(wide, n as nat, max);
    law_prefix_is_optional(wide);
}

/// A digit in the other letter case, where it has one.
pub open spec fn upper_digit(c: char) -> char {
    if 'a' <= c <= 'f' {
        (c as int - 32) as char
    } else {
        c
    }
}

pub open spec fn upper_digits(s: Seq<char>) -> Seq<char> {
    s.map_values(|c: char| upper_digit(c))
}

proof fn lemma_upper_digits_value(s: Seq<char>)
    ensures
        all_hex_digits(upper_digits(s)) == all_hex_digits(s),
        all_hex_digits(s) ==> hex_value(upper_digits(s)) == hex_value(s),
    decreases s.len(),
{
    let u = upper_digits(s);
    if all_hex_digits(u) {
        assert forall|i: int| 0 <= i < s.len() implies is_hex_digit(#[trigger] s[i]) by {
            assert(is_hex_digit(u[i]));
        }
    }
    if all_hex_digits(s) && s.len() > 0 {
        assert(is_hex_digit(s.last()));
        assert(all_hex_digits(s.drop_last())) by {
            assert forall|i: int| 0 <= i < s.len() - 1 implies is_hex_digit(
                #[trigger] s.drop_last()[i],
            ) by {
                assert(s.drop_last()[i] == s[i]);
            }
        }
        lemma_upper_digits_value(s.drop_last());
        assert(u.drop_last() == upper_digits(s.drop_last()));
        assert(u.last() == upper_digit(s.last()));
    }
}

/// The letter case of the digits does not matter.
pub proof fn law_letter_case_does_not_matter(s: Seq<char>, max: nat)
    ensures
        hex_number(upper_digits(s), max) == hex_number(s, max),
{
    let u = upper_digits(s);
    let p = without_plus(s);
    let q = without_plus(u);
    assert(q == upper_digits(p));
    lemma_upper_digits_value(p);
    assert forall|k: int| 0 <= k <= p.len() implies (all_hex_digits(#[trigger] p.take(k))
        && hex_value(p.take(k)) > max) == (all_hex_digits(q.take(k)) && hex_value(q.take(k))
        > max) by {
        assert(q.take(k) == upper_digits(p.take(k)));
        lemma_upper_digits_value(p.take(k));
    }
    if exceeds(q, max) {
        let k = choose|k: int|
            0 <= k <= q.len() && all_hex_digits(#[trigger] q.take(k)) && hex_value(q.take(k)) > max;
        assert(all_hex_digits(p.take(k)) && hex_value(p.take(k)) > max);
    }
    if exceeds(p, max) {
        let k = choose|k: int|
            0 <= k <= p.len() && all_hex_digits(#[trigger] p.take(k)) && hex_value(p.take(k)) > max;
        assert(all_hex_digits(q.take(k)) && hex_value(q.take(k)) > max);
    }
}

/// The value of a character as a hexadecimal digit, by its code.
pub open spec fn digit_by_code(c: char) -> Option<nat> {
    let code = c as int;
    if 48 <= code <= 57 {
        Some((code - 48) as nat)
    } else if 65 <= code <= 70 {
        Some((code - 55) as nat)
    } else if 97 <= code <= 102 {
        Some((code - 87) as nat)
    } else {
        None
    }
}

/// What a single digit with value `d` comes to, or a text that ends in one.
pub open spec fn fitting(d: nat, max: nat) -> Result<nat, HexError> {
    if d <= max {
        Ok(d)
    } else {
        Err(HexError::TooLarge)
    }
}

/// Nothing is no number. One character is a number if it is a digit. A plus sign may stand in front
/// of a digit.
pub proof fn law_first_digit(c: char, max: nat)
    ensures
        hex_number(Seq::empty(), max) == Err::<nat, HexError>(HexError::Empty),
        digit_by_code(c) matches Some(d) ==> hex_number(seq![c], max) == fitting(d, max)
            && hex_number(seq!['+', c], max) == fitting(d, max),
        digit_by_code(c) is None ==> hex_number(seq![c], max) == Err::<nat, HexError>(
            HexError::InvalidDigit,
        ) && hex_number(seq!['+', c], max) == Err::<nat, HexError>(HexError::InvalidDigit),
{
    lemma_single(c, max);
    assert(seq!['+', c].skip(1) =~= seq![c]);
    assert(without_plus(seq![c]) == seq![c]);
    assert(without_plus(seq!['+', c]) == seq![c]);
}

proof fn lemma_single(c: char, max: nat)
    ensures
        all_hex_digits(seq![c]) == (digit_by_code(c) is Some),
        digit_by_code(c) matches Some(d) ==> hex_value(seq![c]) == d,
        exceeds(seq![c], max) <==> (digit_by_code(c) matches Some(d) && d > max),
{
    let s = seq![c];
    assert(s[0] == c);
    assert(s.drop_last() =~= Seq::<char>::empty());
    assert(hex_value(Seq::<char>::empty()) == 0);
    assert(hex_value(s) == hex_value(s.drop_last()) * 16 + hex_digit_value(s.last()));
    assert(s.take(0) =~= Seq::<char>::empty());
    assert(s.take(1) =~= s);
    if all_hex_digits(s) {
        assert(is_hex_digit(s[0]));
    }
    if exceeds(s, max) {
        let k = choose|k: int|
            0 <= k <= s.len() && all_hex_digits(#[trigger] s.take(k)) && hex_value(s.take(k)) > max;
        assert(k == 0 || k == 1);
    }
}

/// A digit behind a number makes sixteen times the number and the digit, if that still fits. Any
/// other character behind a number spoils it. What is no number, and more than a lone sign, stays
/// wrong in the same way whatever follows.
pub proof fn law_next_digit(s: Seq<char>, c: char, max: nat)
    requires
        s.len() > 0,
        s != seq!['+'],
    ensures
        hex_number(s, max) matches Ok(v) ==> hex_number(s.push(c), max) == match digit_by_code(c) {
            Some(d) => fitting(16 * v + d, max),
            None => Err(HexError::InvalidDigit),
        },
        hex_number(s, max) matches Err(e) ==> hex_number(s.push(c), max) == Err::<nat, HexError>(e),
{
    let p = without_plus(s);
    let q = without_plus(s.push(c));
    if s.len() == 1 {
        if s[0] == '+' {
            assert(s =~= seq!['+']);
        }
    }
    assert(s.push(c)[0] == s[0]);
    assert(s.push(c).skip(1) =~= s.skip(1).push(c));
    assert(q =~= p.push(c));
    assert(q.drop_last() =~= p);
    assert(q.last() == c);
    assert(q.take(q.len() as int) =~= q);
    assert(p.take(p.len() as int) =~= p);
    assert forall|k: int| 0 <= k <= p.len() implies #[trigger] q.take(k) == p.take(k) by {
        assert(q.take(k) =~= p.take(k));
    }
    assert(all_hex_digits(q) == (all_hex_digits(p) && digit_by_code(c) is Some)) by {
        if all_hex_digits(q) {
            assert forall|i: int| 0 <= i < p.len() implies is_hex_digit(#[trigger] p[i]) by {
                assert(q[i] == p[i]);
            }
            assert(is_hex_digit(q[p.len() as int]));
        }
    }
    assert(exceeds(p, max) ==> exceeds(q, max)) by {
        if exceeds(p, max) {
            let k = choose|k: int|
                0 <= k <= p.len() && all_hex_digits(#[trigger] p.take(k)) && hex_value(p.take(k))
                    > max;
            assert(q.take(k) == p.take(k));
        }
    }
    assert(exceeds(q, max) ==> exceeds(p, max) || all_hex_digits(q) && hex_value(q) > max) by {
        if exceeds(q, max) {
            let k = choose|k: int|
                0 <= k <= q.len() && all_hex_digits(#[trigger] q.take(k)) && hex_value(q.take(k))
                    > max;
            if k <= p.len() {
                assert(q.take(k) == p.take(k));
            } else {
                assert(q.take(k) =~= q);
            }
        }
    }
    if all_hex_digits(q) && hex_value(q) > max {
        assert(all_hex_digits(q.take(q.len() as int)));
        assert(exceeds(q, max));
    }
    assert(hex_value(q) == hex_value(p) * 16 + hex_digit_value(c));
}

/// A text without either prefix is read as it stands, and `0X` in front of a text that starts with
/// `0x` is all that is taken off.
pub proof fn law_only_prefixes_come_off(s: Seq<char>)
    ensures
        !(s.len() >= 2 && s[0] == '0' && (s[1] == 'x' || s[1] == 'X')) ==> bare(s) == s,
        s.len() >= 2 && s[0] == '0' && s[1] == 'x' ==> bare(seq!['0', 'X'] + s) == s,
{
    let upper = seq!['0', 'X'];
    let lower = seq!['0', 'x'];
    assert(lower[0] == '0' && lower[1] == 'x' && upper[0] == '0' && upper[1] == 'X');
    if s.len() >= 2 {
        assert(s.take(2)[0] == s[0] && s.take(2)[1] == s[1]);
    }
    if s.len() >= 2 && s[0] == '0' && s[1] == 'x' {
        let full = upper + s;
        assert(full.take(2) =~= upper && full.skip(2) =~= s);
        assert(full.take(2)[1] == 'X');
        assert(strip_all(full, lower) == full);
        assert(strip_all(s, upper) == s);
    }
}

/// Each error has words of its own.
pub proof fn law_words(error: HexError)
    ensures
        error is Empty <==> error.words() == "cannot parse integer from empty string"@,
        error is InvalidDigit <==> error.words() == "invalid digit found in string"@,
        error is TooLarge <==> error.words() == "number too large to fit in target type"@,
{
    reveal_strlit("cannot parse integer from empty string");
    reveal_strlit("invalid digit found in string");
    reveal_strlit("number too large to fit in target type");
    assert("cannot parse integer from empty string"@[0] == 'c');
    assert("invalid digit found in string"@[0] == 'i');
    assert("number too large to fit in target type"@[0] == 'n');
}

} // verus!
