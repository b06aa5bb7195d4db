//! Characters and numerals: the text that the tracer prints is put together here.
//!
//! Strings are modelled by their sequence of characters. Appending functions say what they add to
//! the end of the string that they are given.
use vstd::arithmetic::div_mod::{lemma_basic_div, lemma_div_denominator};
use vstd::arithmetic::power::{lemma_pow_increases, lemma_pow_positive, pow};
use vstd::prelude::*;

verus! {

/// The digit of value `d` in a base of at most sixteen, with lower-case letters.
pub open spec fn digit_char(d: int) -> char {
    if d < 10 {
        ('0' as int + d) as char
    } else {
        ('a' as int + d - 10) as char
    }
}

/// The numeral of `n` in base `base`, without leading zeros; zero is written `0`.
pub open spec fn numeral(n: nat, base: nat) -> Seq<char>
    decreases n,
{
    if n < base || base < 2 {
        seq![digit_char(n as int)]
    } else {
        proof {
            assert(n / base < n) by (nonlinear_arith)
                requires
                    n >= base,
                    base >= 2,
            ;
        }
        numeral(n / base, base).push(digit_char((n % base) as int))
    }
}

/// The lower-case hexadecimal numeral of `n`.
pub open spec fn hex(n: nat) -> Seq<char> {
    numeral(n, 16)
}

/// The decimal numeral of `n`.
pub open spec fn decimal(n: nat) -> Seq<char> {
    numeral(n, 10)
}

/// `s` with copies of `fill` in front, as many as it takes to be `width` characters long; none if
/// it is that long already.
pub open spec fn padded(s: Seq<char>, width: nat, fill: char) -> Seq<char> {
    if s.len() >= width {
        s
    } else {
        Seq::new((width - s.len()) as nat, |i: int| fill) + s
    }
}

/// `n` as sixteen hexadecimal digits.
pub open spec fn hex16(n: u64) -> Seq<char> {
    padded(hex(n as nat), 16, '0')
}

/// The characters of a string, one by one.
pub fn chars_of(s: &str) -> (chars: Vec<char>)
    ensures
        chars@ == s@,
{
    let mut chars: Vec<char> = Vec::new();
    let n: usize = s.unicode_len();
    let mut i: usize = 0;
    while i < n
        invariant
            i <= n,
            n == s@.len(),
            chars@ == s@.take(i as int),
        decreases n - i,
    {
        chars.push(s.get_char(i));
        i = i + 1;
    }
    chars
}

/// The text of one digit.
fn digit(d: u64) -> (text: &'static str)
    requires
        d < 16,
    ensures
        text@ == seq![digit_char(d as int)],
{
    proof {
        reveal_strlit("0");
        reveal_strlit("1");
        reveal_strlit("2");
        reveal_strlit("3");
        reveal_strlit("4");
        reveal_strlit("5");
        reveal_strlit("6");
        reveal_strlit("7");
        reveal_strlit("8");
        reveal_strlit("9");
        reveal_strlit("a");
        reveal_strlit("b");
        reveal_strlit("c");
        reveal_strlit("d");
        reveal_strlit("e");
        reveal_strlit("f");
    }
    match d {
        0 => "0",
        1 => "1",
        2 => "2",
        3 => "3",
        4 => "4",
        5 => "5",
        6 => "6",
        7 => "7",
        8 => "8",
        9 => "9",
        10 => "a",
        11 => "b",
        12 => "c",
        13 => "d",
        14 => "e",
        _ => "f",
    }
}

/// Appends the numeral of `n` in base `base`.
fn push_numeral(out: &mut String, n: u64, base: u64)
    requires
        2 <= base <= 16,
    ensures
        final(out)@ == old(out)@ + numeral(n as nat, base as nat),
    decreases n,
{
    if n >= base {
        proof {
            assert(n / base < n) by (nonlinear_arith)
                requires
                    n >= base,
                    base >= 2,
            ;
        }
        push_numeral(out, n / base, base);
    }
    proof {
        assert(n % base < base) by (nonlinear_arith)
            requires
                base >= 2,
        ;
        if n < base {
            assert(n % base == n) by (nonlinear_arith)
                requires
                    n < base,
            ;
        }
    }
    out.append(digit(n % base));
}

/// Appends `text`, padded on the left to `width` characters with the one character of `fill`.
fn push_padded(out: &mut String, text: &str, width: usize, fill: &str)
    requires
        fill@.len() == 1,
    ensures
        final(out)@ == old(out)@ + padded(text@, width as nat, fill@[0]),
{
    let ghost before = out@;
    let full: usize = text.unicode_len();
    let mut len: usize = full;
    while len < width
        invariant
            full == text@.len(),
            full <= len,
            full <= width ==> len <= width,
            full > width ==> len == full,
            fill@.len() == 1,
            out@ == before + Seq::new((len - full) as nat, |i: int| fill@[0]),
        decreases width - len,
    {
        out.append(fill);
        len = len + 1;
    }
    out.append(text);
    assert(out@ == before + padded(text@, width as nat, fill@[0]));
}

/// Appends `n` in hexadecimal.
pub fn push_hex(out: &mut String, n: u64)
    ensures
        final(out)@ == old(out)@ + hex(n as nat),
{
    push_numeral(out, n, 16);
}

/// Appends `n` in decimal.
pub fn push_decimal(out: &mut String, n: u64)
    ensures
        final(out)@ == old(out)@ + decimal(n as nat),
{
    push_numeral(out, n, 10);
}

/// Appends `n` as sixteen hexadecimal digits.
pub fn push_hex16(out: &mut String, n: u64)
    ensures
        final(out)@ == old(out)@ + hex16(n),
{
    let mut text: String = String::new();
    push_hex(&mut text, n);
    proof {
        reveal_strlit("0");
    }
    push_padded(out, text.as_str(), 16, "0");
}

/// Appends `n` in decimal, right-aligned in a field of `width` characters.
pub fn push_decimal_right(out: &mut String, n: u64, width: usize)
    ensures
        final(out)@ == old(out)@ + padded(decimal(n as nat), width as nat, ' '),
{
    let mut text: String = String::new();
    push_decimal(&mut text, n);
    proof {
        reveal_strlit(" ");
    }
    push_padded(out, text.as_str(), width, " ");
}

/// The digits of a number, one by one: the digit with `i` digits behind it stands for the `i`-th
/// power of the base. There are as many digits as it takes, and no more.
proof fn lemma_numeral_digits(n: nat, base: nat, i: nat)
    requires
        2 <= base <= 16,
        i < numeral(n, base).len(),
    ensures
        ({
            let s = numeral(n, base);
            let d = n as int / pow(base as int, i) % base as int;
            &&& s[s.len() - 1 - i] as int == if d < 10 {
                48 + d
            } else {
                87 + d
            }
            &&& n < pow(base as int, s.len())
            &&& s.len() > 1 ==> pow(base as int, (s.len() - 1) as nat) <= n
        }),
    decreases n,
{
    let s = numeral(n, base);
    let b = base as int;
    reveal(pow);
    if n < base {
        assert(pow(b, 0) == 1);
        assert(pow(b, 1) == b * pow(b, 0));
        assert(n as int / 1 % b == n) by (nonlinear_arith)
            requires
                n < b,
        ;
    } else {
        let q = n / base;
        let rest = numeral(q, base);
        assert(q < n) by (nonlinear_arith)
            requires
                n >= base,
                base >= 2,
                q == n / base,
        ;
        assert(s == rest.push(digit_char((n % base) as int)));
        assert(n % base < base) by (nonlinear_arith)
            requires
                base >= 2,
        ;
        lemma_numeral_len(q, base);
        lemma_numeral_digits(q, base, if i == 0 {
            0
        } else {
            (i - 1) as nat
        });
        let k = (rest.len() - 1) as nat;
        let high = pow(b, rest.len());
        let low = pow(b, k);
        assert(pow(b, (rest.len() + 1) as nat) == b * high);
        assert(high == b * low);
        assert(n < b * high) by (nonlinear_arith)
            requires
                n as int / b < high,
                b >= 2,
        ;
        assert(rest.len() > 1 ==> low <= q);
        assert(rest.len() == 1 ==> low == 1) by {
            if rest.len() == 1 {
                assert(pow(b, 0) == 1);
            }
        }
        assert(q >= 1) by (nonlinear_arith)
            requires
                n >= base,
                base >= 2,
                q == n / base,
        ;
        assert(b * low <= n) by (nonlinear_arith)
            requires
                low <= n as int / b,
                b >= 2,
        ;
        if i == 0 {
            assert(pow(b, 0) == 1);
            assert(n as int / 1 == n);
        } else {
            let p = pow(b, (i - 1) as nat);
            lemma_pow_positive(b, (i - 1) as nat);
            assert(pow(b, i) == b * p);
            lemma_div_denominator(n as int, b, p);
            assert(s[s.len() - 1 - i] == rest[rest.len() - 1 - (i - 1)]);
        }
    }
}

proof fn lemma_numeral_len(n: nat, base: nat)
    ensures
        numeral(n, base).len() > 0,
    decreases n,
{
    if !(n < base || base < 2) {
        assert(n / base < n) by (nonlinear_arith)
            requires
                n >= base,
                base >= 2,
        ;
        lemma_numeral_len(n / base, base);
    }
}

/// A hexadecimal numeral has the digit of `n / 16^i % 16` with `i` digits behind it, in lower case,
/// and as many digits as it takes to write `n`.
pub proof fn law_hex_digits(n: nat, i: nat)
    ensures
        ({
            let s = hex(n);
            let d = n as int / pow(16, i) % 16;
            &&& s.len() > 0
            &&& n < pow(16, s.len())
            &&& s.len() > 1 ==> pow(16, (s.len() - 1) as nat) <= n
            &&& i < s.len() ==> s[s.len() - 1 - i] as int == if d < 10 {
                48 + d
            } else {
                87 + d
            }
        }),
{
    lemma_numeral_len(n, 16);
    lemma_numeral_digits(n, 16, 0);
    if i < hex(n).len() {
        lemma_numeral_digits(n, 16, i);
    }
}

/// A decimal numeral has the digit `n / 10^i % 10` with `i` digits behind it, and as many digits as
/// it takes to write `n`.
pub proof fn law_decimal_digits(n: nat, i: nat)
    ensures
        ({
            let s = decimal(n);
            &&& s.len() > 0
            &&& n < pow(10, s.len())
            &&& s.len() > 1 ==> pow(10, (s.len() - 1) as nat) <= n
            &&& i < s.len() ==> s[s.len() - 1 - i] as int == 48 + n as int / pow(10, i) % 10
        }),
{
    lemma_numeral_len(n, 10);
    lemma_numeral_digits(n, 10, 0);
    if i < decimal(n).len() {
        lemma_numeral_digits(n, 10, i);
    }
}

/// A padded text ends with the text, has nothing but the filling character in front of it, and is as
/// long as the field or the text, whichever is longer.
pub proof fn law_padding(s: Seq<char>, width: nat, fill: char)
    ensures
        ({
            let t = padded(s, width, fill);
            let front = t.len() - s.len();
            &&& t.len() == if s.len() < width {
                width
            } else {
                s.len()
            }
            &&& t.skip(front) == s
            &&& forall|i: int| 0 <= i < front ==> t[i] == fill
        }),
{
    let t = padded(s, width, fill);
    assert(t.skip(t.len() - s.len()) =~= s);
}

/// Sixteen digits show all 64 bits of a number: the digit at `i` is that of `n / 16^(15 - i) % 16`.
pub proof fn law_hex16_digits(n: u64, i: int)
    requires
        0 <= i < 16,
    ensures
        ({
            let d = n as int / pow(16, (15 - i) as nat) % 16;
            &&& hex16(n).len() == 16
            &&& hex16(n)[i] as int == if d < 10 {
                48 + d
            } else {
                87 + d
            }
        }),
{
    let s = hex(n as nat);
    let k = (15 - i) as nat;
    law_hex_digits(n as nat, k);
    lemma_pow_of_sixteen();
    if s.len() > 16 {
        lemma_pow_increases(16, 16, (s.len() - 1) as nat);
        assert(false);
    }
    law_padding(s, 16, '0');
    let t = hex16(n);
    let front = 16 - s.len();
    if i < front {
        lemma_pow_increases(16, s.len(), k);
        lemma_pow_positive(16, k);
        lemma_basic_div(n as int, pow(16, k));
        assert(n as int / pow(16, k) == 0);
    } else {
        assert(t.skip(front)[i - front] == t[i]);
    }
}

proof fn lemma_pow_of_sixteen()
    ensures
        pow(16, 16) == 0x1_0000_0000_0000_0000,
{
    reveal(pow);
    reveal_with_fuel(pow, 17);
    assert(pow(16, 4) == 0x1_0000);
    assert(pow(16, 8) == 0x1_0000_0000);
    assert(pow(16, 16) == 0x1_0000_0000_0000_0000);
}

/// `s` is `n` in sixteen lower-case hexadecimal digits, the most significant first.
pub open spec fn reads_hex16(s: Seq<char>, n: u64) -> bool {
    &&& s.len() == 16
    &&& forall|i: int|
        0 <= i < 16 ==> #[trigger] s[i] as int == {
            let d = n as int / pow(16, (15 - i) as nat) % 16;
            if d < 10 {
                48 + d
            } else {
                87 + d
            }
        }
}

/// `s` is `n` in lower-case hexadecimal, with as many digits as it takes.
pub open spec fn reads_hex(s: Seq<char>, n: int) -> bool {
    &&& s.len() > 0
    &&& n < pow(16, s.len())
    &&& s.len() > 1 ==> pow(16, (s.len() - 1) as nat) <= n
    &&& forall|i: int|
        0 <= i < s.len() ==> #[trigger] s[i] as int == {
            let d = n / pow(16, (s.len() - 1 - i) as nat) % 16;
            if d < 10 {
                48 + d
            } else {
                87 + d
            }
        }
}

/// `s` is `n` in decimal, with as many digits as it takes.
pub open spec fn reads_decimal(s: Seq<char>, n: int) -> bool {
    &&& s.len() > 0
    &&& n < pow(10, s.len())
    &&& s.len() > 1 ==> pow(10, (s.len() - 1) as nat) <= n
    &&& forall|i: int|
        0 <= i < s.len() ==> #[trigger] s[i] as int == 48 + n / pow(
            10,
            (s.len() - 1 - i) as nat,
        ) % 10
}

/// Printed numbers read as the numbers that they were printed from.
pub proof fn law_numbers_read_as_themselves(n: u64)
    ensures
        reads_hex16(hex16(n), n),
        reads_hex(hex(n as nat), n as int),
        reads_decimal(decimal(n as nat), n as int),
{
    assert forall|i: int| 0 <= i < 16 implies #[trigger] hex16(n)[i] as int == {
        let d = n as int / pow(16, (15 - i) as nat) % 16;
        if d < 10 {
            48 + d
        } else {
            87 + d
        }
    } by {
        law_hex16_digits(n, i);
    }
    law_hex16_digits(n, 0);
    let h = hex(n as nat);
    law_hex_digits(n as nat, 0);
    assert forall|i: int| 0 <= i < h.len() implies #[trigger] h[i] as int == {
        let d = n as int / pow(16, (h.len() - 1 - i) as nat) % 16;
        if d < 10 {
            48 + d
        } else {
            87 + d
        }
    } by {
        law_hex_digits(n as nat, (h.len() - 1 - i) as nat);
    }
    let t = decimal(n as nat);
    law_decimal_digits(n as nat, 0);
    assert forall|i: int| 0 <= i < t.len() implies #[trigger] t[i] as int == 48 + n as int / pow(
        10,
        (t.len() - 1 - i) as nat,
    ) % 10 by {
        law_decimal_digits(n as nat, (t.len() - 1 - i) as nat);
    }
}

} // verus!
