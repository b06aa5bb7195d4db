//! Finding a module of a process by its name.
//!
//! The system gives the name of a module as UTF-16 units in a fixed buffer, up to a zero. Names are
//! compared without regard to the case of ASCII letters, and the ending `.dll` may be left out of
//! the name that is looked for.
use vstd::prelude::*;

use crate::text;

verus! {

/// A loaded module: its name as the system gives it, and the address that it is loaded at.
pub struct ModuleEntry {
    pub name: Vec<u16>,
    pub base: usize,
}

/// What stands in a name for a unit that is not valid UTF-16.
pub const REPLACEMENT: u32 = 0xFFFD;

pub open spec fn is_high_surrogate(unit: u16) -> bool {
    0xD800 <= unit <= 0xDBFF
}

pub open spec fn is_low_surrogate(unit: u16) -> bool {
    0xDC00 <= unit <= 0xDFFF
}

/// The character that a pair of surrogates stands for.
pub open spec fn pair_char(high: u16, low: u16) -> char {
    (0x10000 + (high - 0xD800) * 0x400 + (low - 0xDC00)) as char
}

/// The text that UTF-16 units stand for. A surrogate without its partner becomes the replacement
/// character.
pub open spec fn utf16_text(units: Seq<u16>) -> Seq<char>
    decreases units.len(),
{
    if units.len() == 0 {
        Seq::empty()
    } else if is_high_surrogate(units[0]) && units.len() > 1 && is_low_surrogate(units[1]) {
        seq![pair_char(units[0], units[1])] + utf16_text(units.skip(2))
    } else if is_high_surrogate(units[0]) || is_low_surrogate(units[0]) {
        seq![REPLACEMENT as char] + utf16_text(units.skip(1))
    } else {
        seq![units[0] as char] + utf16_text(units.skip(1))
    }
}

/// How many units stand before the first zero.
pub open spec fn units_before_nul(units: Seq<u16>) -> nat
    decreases units.len(),
{
    if units.len() == 0 || units[0] == 0 {
        0
    } else {
        1 + units_before_nul(units.skip(1))
    }
}

/// The name in a buffer of units.
pub open spec fn name_in(units: Seq<u16>) -> Seq<char> {
    utf16_text(units.take(units_before_nul(units) as int))
}

/// An ASCII capital letter in lower case; any other character as it is.
pub open spec fn lower_char(c: char) -> char {
    if 'A' <= c <= 'Z' {
        (c as int + 32) as char
    } else {
        c
    }
}

pub open spec fn lowered(s: Seq<char>) -> Seq<char> {
    s.map_values(|c: char| lower_char(c))
}

/// The module name in `units` is the one that `wanted` asks for.
pub open spec fn is_wanted(units: Seq<u16>, wanted: Seq<char>) -> bool {
    ||| lowered(name_in(units)) == lowered(wanted)
    ||| lowered(name_in(units)) == lowered(wanted) + ".dll"@
}

/// The address of the first of `entries` that `wanted` asks for.
pub open spec fn base_of(entries: Seq<ModuleEntry>, wanted: Seq<char>) -> Option<usize>
    decreases entries.len(),
{
    if entries.len() == 0 {
        None
    } else if is_wanted(entries[0].name@, wanted) {
        Some(entries[0].base)
    } else {
        base_of(entries.skip(1), wanted)
    }
}

/// The message that no module was found.
pub open spec fn not_found_text(pid: u32, wanted: Seq<char>) -> Seq<char> {
    "module not found in pid "@ + text::decimal(pid as nat) + ": "@ + wanted
}

/// The message that the modules could not be listed.
pub open spec fn snapshot_failed_text(pid: u32, error: Seq<char>) -> Seq<char> {
    "snapshot pid "@ + text::decimal(pid as nat) + ": "@ + error
}

/// The message that the modules could not be listed.
pub fn snapshot_failed(pid: u32, error: &str) -> (message: String)
    ensures
        message@ == snapshot_failed_text(pid, error@),
{
    let mut message: String = "snapshot pid ".to_owned();
    text::push_decimal(&mut message, pid as u64);
    message.append(": ");
    message.append(error);
    message
}

/// The code points of a text.
pub open spec fn codes(s: Seq<char>) -> Seq<u32> {
    s.map_values(|c: char| c as u32)
}

/// A character is known by its code point.
proof fn lemma_code_tells_apart(c: char, d: char)
    requires
        c as u32 == d as u32,
    ensures
        c == d,
{
}

/// A text is known by its code points.
proof fn lemma_codes_tell_apart(a: Seq<char>, b: Seq<char>)
    requires
        codes(a) == codes(b),
    ensures
        a == b,
{
    assert(codes(a).len() == a.len() && codes(b).len() == b.len());
    assert forall|i: int| 0 <= i < a.len() implies a[i] == b[i] by {
        assert(codes(a)[i] == a[i] as u32 && codes(b)[i] == b[i] as u32);
        lemma_code_tells_apart(a[i], b[i]);
    }
}

fn lower_code(code: u32) -> (lower: u32)
    ensures
        forall|c: char| #![trigger lower_char(c)] c as u32 == code ==> lower == lower_char(c) as u32,
{
    if 'A' as u32 <= code && code <= 'Z' as u32 {
        code + 32
    } else {
        code
    }
}

/// How many units stand before the first zero.
fn name_len(units: &Vec<u16>) -> (n: usize)
    ensures
        n == units_before_nul(units@),
        n <= units@.len(),
{
    let mut n: usize = 0;
    assert(units@.skip(0) == units@);
    while n < units.len() && units[n] != 0
        invariant
            n <= units@.len(),
            units_before_nul(units@) == n + units_before_nul(units@.skip(n as int)),
        decreases units@.len() - n,
    {
        assert(units@.skip(n as int).skip(1) == units@.skip(n + 1));
        n = n + 1;
    }
    n
}

/// The code points of the name in `units`, in lower case.
fn name_codes(units: &Vec<u16>) -> (name: Vec<u32>)
    ensures
        name@ == codes(lowered(name_in(units@))),
{
    let n: usize = name_len(units);
    let ghost all = units@.take(n as int);
    let ghost whole = codes(lowered(utf16_text(all)));
    let mut name: Vec<u32> = Vec::new();
    let mut i: usize = 0;
    assert(all.skip(0) == all);
    assert(name@ + whole == whole);
    while i < n
        invariant
            i <= n <= units@.len(),
            all == units@.take(n as int),
            whole == codes(lowered(utf16_text(all))),
            name@ + codes(lowered(utf16_text(all.skip(i as int)))) == whole,
        decreases n - i,
    {
        let ghost rest = all.skip(i as int);
        let ghost before = name@;
        let unit: u16 = units[i];
        let first: u32 = unit as u32;
        assert(rest[0] == unit);
        if 0xD800 <= unit && unit <= 0xDBFF && n - i > 1 && 0xDC00 <= units[i + 1] && units[i + 1]
            <= 0xDFFF {
            let second: u32 = units[i + 1] as u32;
            let code: u32 = 0x10000 + (first - 0xD800) * 0x400 + (second - 0xDC00);
            let lower: u32 = lower_code(code);
            proof {
                assert(rest[1] == second);
                let c = pair_char(rest[0], rest[1]);
                assert(c as u32 == code);
                assert(lower == lower_char(c) as u32);
                lemma_first_code(c, utf16_text(rest.skip(2)));
                assert(rest.skip(2) == all.skip(i + 2));
            }
            name.push(lower);
            assert(name@ == before + seq![lower]);
            i = i + 2;
        } else if 0xD800 <= unit && unit <= 0xDFFF {
            proof {
                lemma_first_code(REPLACEMENT as char, utf16_text(rest.skip(1)));
                assert(rest.skip(1) == all.skip(i + 1));
            }
            name.push(REPLACEMENT);
            assert(name@ == before + seq![REPLACEMENT]);
            i = i + 1;
        } else {
            let lower: u32 = lower_code(first);
            proof {
                let c = rest[0] as char;
                assert(c as u32 == first);
                assert(lower == lower_char(c) as u32);
                lemma_first_code(c, utf16_text(rest.skip(1)));
                assert(rest.skip(1) == all.skip(i + 1));
            }
            name.push(lower);
            assert(name@ == before + seq![lower]);
            i = i + 1;
        }
    }
    assert(utf16_text(all.skip(n as int)) == Seq::<char>::empty());
    assert(name@ == whole);
    name
}

/// Code points of a text that starts with `c`.
proof fn lemma_first_code(c: char, rest: Seq<char>)
    ensures
        codes(lowered(seq![c] + rest)) == seq![lower_char(c) as u32] + codes(lowered(rest)),
{
    assert(codes(lowered(seq![c] + rest)) =~= seq![lower_char(c) as u32] + codes(lowered(rest)));
}

/// The code points of `s`, in lower case.
fn text_codes(s: &str) -> (out: Vec<u32>)
    ensures
        out@ == codes(lowered(s@)),
{
    let chars: Vec<char> = text::chars_of(s);
    let mut out: Vec<u32> = Vec::new();
    let mut i: usize = 0;
    while i < chars.len()
        invariant
            chars@ == s@,
            i <= chars@.len(),
            out@ == codes(lowered(s@.take(i as int))),
        decreases chars@.len() - i,
    {
        let lower: u32 = lower_code(chars[i] as u32);
        assert(lower == lower_char(s@[i as int]) as u32);
        out.push(lower);
        assert(s@.take(i + 1) == s@.take(i as int).push(s@[i as int]));
        i = i + 1;
    }
    assert(s@.take(i as int) == s@);
    out
}

fn same_codes(a: &Vec<u32>, b: &Vec<u32>) -> (same: bool)
    ensures
        same == (a@ == b@),
{
    if a.len() != b.len() {
        return false;
    }
    let mut i: usize = 0;
    while i < a.len()
        invariant
            i <= a@.len() == b@.len(),
            forall|j: int| 0 <= j < i ==> a@[j] == b@[j],
        decreases a@.len() - i,
    {
        if a[i] != b[i] {
            return false;
        }
        i = i + 1;
    }
    assert(a@ == b@);
    true
}

impl ModuleEntry {
    /// Whether this is the module that `wanted` asks for.
    pub fn matches(&self, wanted: &str) -> (found: bool)
        ensures
            found == is_wanted(self.name@, wanted@),
            found <==> are_alike(name_in(self.name@), wanted@) || are_alike(
                name_in(self.name@),
                wanted@ + seq!['.', 'd', 'l', 'l'],
            ),
    {
        proof {
            law_wanted_module(self.name@, wanted@);
        }
        let name: Vec<u32> = name_codes(&self.name);
        let mut want: Vec<u32> = text_codes(wanted);
        let ghost lower_name = lowered(name_in(self.name@));
        let ghost lower_want = lowered(wanted@);
        if same_codes(&name, &want) {
            proof {
                lemma_codes_tell_apart(lower_name, lower_want);
            }
            return true;
        }
        want.push('.' as u32);
        want.push('d' as u32);
        want.push('l' as u32);
        want.push('l' as u32);
        proof {
            reveal_strlit(".dll");
            assert(want@ == codes(lower_want + ".dll"@));
        }
        let found: bool = same_codes(&name, &want);
        proof {
            if found {
                lemma_codes_tell_apart(lower_name, lower_want + ".dll"@);
            }
        }
        found
    }
}

/// The address of the module that `name` asks for, among the modules of process `pid` in the order
/// in which the system lists them.
pub fn find_module_base(pid: u32, name: &str, entries: &Vec<ModuleEntry>) -> (found: Result<
    usize,
    String,
>)
    ensures
        match base_of(entries@, name@) {
            Some(base) => found is Ok && found->Ok_0 == base,
            None => found is Err && found->Err_0@ == not_found_text(pid, name@),
        },
{
    let mut i: usize = 0;
    assert(entries@.skip(0) == entries@);
    while i < entries.len()
        invariant
            i <= entries@.len(),
            base_of(entries@.skip(i as int), name@) == base_of(entries@, name@),
        decreases entries@.len() - i,
    {
        assert(entries@.skip(i as int).skip(1) == entries@.skip(i + 1));
        if entries[i].matches(name) {
            return Ok(entries[i].base);
        }
        i = i + 1;
    }
    let mut message: String = "module not found in pid ".to_owned();
    text::push_decimal(&mut message, pid as u64);
    message.append(": ");
    message.append(name);
    Err(message)
}

/// A module is found exactly if one of those listed has the name asked for, and then it is the
/// first of them.
pub proof fn law_first_match_is_found(entries: Seq<ModuleEntry>, wanted: Seq<char>)
    ensures
        base_of(entries, wanted) is None <==> forall|i: int|
            0 <= i < entries.len() ==> !is_wanted(#[trigger] entries[i].name@, wanted),
        base_of(entries, wanted) matches Some(base) ==> exists|i: int|
            {
                &&& 0 <= i < entries.len()
                &&& is_wanted(#[trigger] entries[i].name@, wanted)
                &&& entries[i].base == base
                &&& forall|j: int| 0 <= j < i ==> !is_wanted(#[trigger] entries[j].name@, wanted)
            },
    decreases entries.len(),
{
    if entries.len() > 0 && !is_wanted(entries[0].name@, wanted) {
        let rest = entries.skip(1);
        law_first_match_is_found(rest, wanted);
        assert forall|i: int| 1 <= i < entries.len() implies entries[i] == rest[i - 1] by {}
        if base_of(rest, wanted) is None {
            assert forall|i: int| 0 <= i < entries.len() implies !is_wanted(
                #[trigger] entries[i].name@,
                wanted,
            ) by {
                if i > 0 {
                    assert(!is_wanted(rest[i - 1].name@, wanted));
                }
            }
        } else {
            let base = base_of(rest, wanted)->0;
            let k = choose|i: int|
                {
                    &&& 0 <= i < rest.len()
                    &&& is_wanted(#[trigger] rest[i].name@, wanted)
                    &&& rest[i].base == base
                    &&& forall|j: int| 0 <= j < i ==> !is_wanted(#[trigger] rest[j].name@, wanted)
                };
            assert(entries[k + 1] == rest[k]);
            assert forall|j: int| 0 <= j < k + 1 implies !is_wanted(
                #[trigger] entries[j].name@,
                wanted,
            ) by {
                if j > 0 {
                    assert(entries[j] == rest[j - 1]);
                }
            }
            assert(is_wanted(entries[k + 1].name@, wanted));
        }
    }
}

/// The case of ASCII letters in the name that is looked for does not matter.
pub proof fn law_case_does_not_matter(units: Seq<u16>, wanted: Seq<char>)
    ensures
        is_wanted(units, lowered(wanted)) == is_wanted(units, wanted),
{
    assert(lowered(lowered(wanted)) == lowered(wanted));
}

/// A module named like `wanted` with `.dll` at the end is found with that ending and without it.
pub proof fn law_dll_may_be_left_out(units: Seq<u16>, wanted: Seq<char>)
    requires
        lowered(name_in(units)) == lowered(wanted + ".dll"@),
    ensures
        is_wanted(units, wanted + ".dll"@),
        is_wanted(units, wanted),
{
    reveal_strlit(".dll");
    assert(lowered(wanted + ".dll"@) == lowered(wanted) + ".dll"@);
}

/// A unit that stands for a character by itself.
pub open spec fn is_plain(unit: u16) -> bool {
    !(0xD800 <= unit <= 0xDFFF)
}

/// A text without surrogates has one character for each unit: the one with that number. So it is
/// for names in ASCII, of any length.
pub proof fn law_plain_text(units: Seq<u16>)
    requires
        forall|i: int| 0 <= i < units.len() ==> is_plain(#[trigger] units[i]),
    ensures
        utf16_text(units).len() == units.len(),
        forall|i: int|
            0 <= i < units.len() ==> #[trigger] utf16_text(units)[i] as int == units[i] as int,
    decreases units.len(),
{
    if units.len() > 0 {
        let rest = units.skip(1);
        assert(is_plain(units[0]));
        assert forall|i: int| 0 <= i < rest.len() implies is_plain(#[trigger] rest[i]) by {
            assert(rest[i] == units[i + 1]);
        }
        law_plain_text(rest);
        let t = utf16_text(units);
        assert(t == seq![units[0] as char] + utf16_text(rest));
        assert forall|i: int| 0 <= i < units.len() implies #[trigger] t[i] as int
            == units[i] as int by {
            if i > 0 {
                assert(t[i] == utf16_text(rest)[i - 1]);
                assert(rest[i - 1] == units[i]);
            }
        }
    }
}

/// A pair of surrogates is the one character that it encodes, and a lone surrogate is the replacement
/// character.
pub proof fn law_surrogates(unit: u16, next: u16)
    ensures
        0xD800 <= unit <= 0xDFFF ==> utf16_text(seq![unit]).len() == 1 && utf16_text(
            seq![unit],
        )[0] as int == 0xFFFD,
        0xD800 <= unit <= 0xDBFF && 0xDC00 <= next <= 0xDFFF ==> utf16_text(
            seq![unit, next],
        ).len() == 1 && utf16_text(seq![unit, next])[0] as int == 0x10000 + (unit - 0xD800) * 1024
            + next - 0xDC00,
{
    assert(seq![unit].skip(1) =~= Seq::<u16>::empty());
    assert(seq![unit, next].skip(2) =~= Seq::<u16>::empty());
    assert(utf16_text(Seq::<u16>::empty()) == Seq::<char>::empty());
    assert(seq![unit][0] == unit);
    assert(seq![unit, next][0] == unit && seq![unit, next][1] == next);
}

/// Units that follow each other are read one after the other, wherever no pair is cut.
pub proof fn law_text_of_parts(a: Seq<u16>, b: Seq<u16>)
    requires
        a.len() > 0 && b.len() > 0 ==> !(0xD800 <= a.last() <= 0xDBFF && 0xDC00 <= b[0] <= 0xDFFF),
    ensures
        utf16_text(a + b) == utf16_text(a) + utf16_text(b),
    decreases a.len(),
{
    if a.len() == 0 {
        assert(a + b =~= b);
        assert(utf16_text(a) + utf16_text(b) =~= utf16_text(b));
    } else {
        let whole = a + b;
        assert(whole[0] == a[0]);
        let paired = is_high_surrogate(a[0]) && whole.len() > 1 && is_low_surrogate(whole[1]);
        if paired {
            if a.len() == 1 {
                assert(whole[1] == b[0]);
                assert(a.last() == a[0]);
                assert(false);
            }
            assert(whole[1] == a[1]);
            assert(whole.skip(2) =~= a.skip(2) + b);
            if a.len() > 2 {
                assert(a.skip(2).last() == a.last());
            }
            law_text_of_parts(a.skip(2), b);
            assert(utf16_text(whole) =~= utf16_text(a) + utf16_text(b));
        } else {
            if a.len() > 1 {
                assert(whole[1] == a[1]);
                assert(a.skip(1).last() == a.last());
            }
            assert(whole.skip(1) =~= a.skip(1) + b);
            law_text_of_parts(a.skip(1), b);
            assert(utf16_text(whole) =~= utf16_text(a) + utf16_text(b));
        }
    }
}

/// A buffer holds `n` units of a name: none of them is zero, and a zero or the end follows.
pub open spec fn holds_name(units: Seq<u16>, n: int) -> bool {
    &&& 0 <= n <= units.len()
    &&& forall|i: int| 0 <= i < n ==> #[trigger] units[i] != 0
    &&& n < units.len() ==> units[n] == 0
}

/// The name in a buffer is all of what stands before the first zero.
pub proof fn law_name_goes_up_to_the_zero(units: Seq<u16>, n: int)
    requires
        holds_name(units, n),
    ensures
        name_in(units) == utf16_text(units.take(n)),
{
    lemma_units_before_nul(units, n);
}

proof fn lemma_units_before_nul(units: Seq<u16>, n: int)
    requires
        holds_name(units, n),
    ensures
        units_before_nul(units) == n,
    decreases units.len(),
{
    if n > 0 {
        assert(units[0] != 0);
        let rest = units.skip(1);
        assert forall|i: int| 0 <= i < n - 1 implies #[trigger] rest[i] != 0 by {
            assert(rest[i] == units[i + 1]);
        }
        lemma_units_before_nul(rest, n - 1);
    }
}

/// Two texts with the same characters, a capital of ASCII counting as its small letter.
pub open spec fn are_alike(a: Seq<char>, b: Seq<char>) -> bool {
    &&& a.len() == b.len()
    &&& forall|i: int|
        #![trigger a[i]]
        0 <= i < a.len() ==> {
            let x = a[i] as int;
            let y = b[i] as int;
            ||| x == y
            ||| 65 <= x <= 90 && y == x + 32
            ||| 65 <= y <= 90 && x == y + 32
        }
}

proof fn lemma_alike(a: Seq<char>, b: Seq<char>)
    ensures
        are_alike(a, b) <==> lowered(a) == lowered(b),
{
    if are_alike(a, b) {
        assert forall|i: int| 0 <= i < a.len() implies lowered(a)[i] == lowered(b)[i] by {
            let x = a[i] as int;
            lemma_lower_code(a[i], b[i]);
        }
        assert(lowered(a) =~= lowered(b));
    }
    if lowered(a) == lowered(b) {
        assert(lowered(a).len() == a.len() && lowered(b).len() == b.len());
        assert forall|i: int|
            #![trigger a[i]]
            0 <= i < a.len() implies {
            let x = a[i] as int;
            let y = b[i] as int;
            ||| x == y
            ||| 65 <= x <= 90 && y == x + 32
            ||| 65 <= y <= 90 && x == y + 32
        } by {
            assert(lowered(a)[i] == lower_char(a[i]) && lowered(b)[i] == lower_char(b[i]));
            lemma_lower_code(a[i], b[i]);
        }
    }
}

proof fn lemma_lower_code(c: char, d: char)
    ensures
        lower_char(c) == lower_char(d) <==> {
            ||| c as int == d as int
            ||| 65 <= c as int <= 90 && d as int == c as int + 32
            ||| 65 <= d as int <= 90 && c as int == d as int + 32
        },
{
}

/// A module is the one asked for exactly if its name is the one asked for, with or without `.dll` at
/// the end, whatever the case of ASCII letters.
pub proof fn law_wanted_module(units: Seq<u16>, wanted: Seq<char>)
    ensures
        is_wanted(units, wanted) <==> are_alike(name_in(units), wanted) || are_alike(
            name_in(units),
            wanted + seq!['.', 'd', 'l', 'l'],
        ),
{
    let ending = seq!['.', 'd', 'l', 'l'];
    reveal_strlit(".dll");
    assert(".dll"@ =~= ending);
    assert(lowered(wanted + ending) =~= lowered(wanted) + ending);
    lemma_alike(name_in(units), wanted);
    lemma_alike(name_in(units), wanted + ending);
}

/// A module whose name has no surrogates, ASCII or not and however long, is found under its full
/// name.
pub proof fn law_module_is_found_under_its_name(
    entries: Seq<ModuleEntry>,
    k: int,
    n: int,
    name: Seq<char>,
)
    requires
        0 <= k < entries.len(),
        holds_name(entries[k].name@, n),
        name.len() == n,
        forall|i: int|
            0 <= i < n ==> is_plain(#[trigger] entries[k].name@[i]) && name[i] as int
                == entries[k].name@[i] as int,
    ensures
        name_in(entries[k].name@) == name,
        is_wanted(entries[k].name@, name),
        base_of(entries, name) is Some,
        (forall|j: int| 0 <= j < k ==> !is_wanted(#[trigger] entries[j].name@, name)) ==> base_of(
            entries,
            name,
        ) == Some(entries[k].base),
{
    let units = entries[k].name@;
    let part = units.take(n);
    law_name_goes_up_to_the_zero(units, n);
    assert forall|i: int| 0 <= i < part.len() implies is_plain(#[trigger] part[i]) by {
        assert(part[i] == units[i]);
    }
    law_plain_text(part);
    assert forall|i: int| 0 <= i < n implies #[trigger] utf16_text(part)[i] == name[i] by {
        assert(utf16_text(part)[i] as int == part[i] as int);
        assert(part[i] == units[i]);
        assert(is_plain(units[i]));
        lemma_code_tells_apart(utf16_text(part)[i], name[i]);
    }
    assert(utf16_text(part) =~= name);
    law_first_match_is_found(entries, name);
    if forall|j: int| 0 <= j < k ==> !is_wanted(#[trigger] entries[j].name@, name) {
        let i = choose|i: int|
            {
                &&& 0 <= i < entries.len()
                &&& is_wanted(#[trigger] entries[i].name@, name)
                &&& entries[i].base == base_of(entries, name)->0
                &&& forall|j: int| 0 <= j < i ==> !is_wanted(#[trigger] entries[j].name@, name)
            };
        assert(i == k);
    }
}

/// The messages name the process in decimal, and end with the name looked for or the error.
pub proof fn law_messages(pid: u32, words: Seq<char>)
    ensures
        not_found_text(pid, words) == "module not found in pid "@ + (text::decimal(pid as nat)
            + ": "@ + words),
        snapshot_failed_text(pid, words) == "snapshot pid "@ + (text::decimal(pid as nat) + ": "@
            + words),
{
    assert(not_found_text(pid, words) =~= "module not found in pid "@ + (text::decimal(pid as nat)
        + ": "@ + words));
    assert(snapshot_failed_text(pid, words) =~= "snapshot pid "@ + (text::decimal(pid as nat)
        + ": "@ + words));
}

} // verus!
