//! Small helpers: sizes as text, and answers typed at a prompt.

use crate::text::{
    all_digits, decimal, digit_char, digit_value, digits_value, find_char, first_index_of,
    is_whitespace, parse_u64, parse_u64_text, to_chars, u64_to_string, whitespace,
};
use vstd::prelude::*;
use vstd::string::*;

verus! {

/// How a question is put to the user.
#[derive(Debug, Clone, Copy, PartialEq, Eq, Structural)]
pub enum AskType {
    /// As a warning.
    Warn,
    /// As plain text.
    Normal,
}

/// The number of hundredths of `unit` that `n` amounts to, rounded to the
/// nearest; a value exactly between two takes the even one.
pub open spec fn hundredths(n: nat, unit: nat) -> nat
    recommends
        unit > 0,
{
    let q = (n * 100) / unit;
    let r = (n * 100) % unit;
    if 2 * r > unit || (2 * r == unit && q % 2 == 1) {
        q + 1
    } else {
        q
    }
}

/// A number of hundredths written with two decimal places.
pub open spec fn two_places(h: nat) -> Seq<char> {
    decimal(h / 100).push('.').push(digit_char((h / 10) % 10)).push(digit_char(h % 10))
}

/// A number of bytes as it is shown: in GiB, MiB or KiB with two decimal
/// places from one such unit on, else in bytes.
pub open spec fn bytes_text(bytes: u64) -> Seq<char> {
    if bytes >= 0x4000_0000 {
        two_places(hundredths(bytes as nat, 0x4000_0000)) + " GiB"@
    } else if bytes >= 0x10_0000 {
        two_places(hundredths(bytes as nat, 0x10_0000)) + " MiB"@
    } else if bytes >= 0x400 {
        two_places(hundredths(bytes as nat, 0x400)) + " KiB"@
    } else {
        decimal(bytes as nat) + " B"@
    }
}

fn single_digit(d: u64) -> (c: char)
    requires
        d < 10,
    ensures
        c == digit_char(d as nat),
{
    if d == 0 {
        '0'
    } else if d == 1 {
        '1'
    } else if d == 2 {
        '2'
    } else if d == 3 {
        '3'
    } else if d == 4 {
        '4'
    } else if d == 5 {
        '5'
    } else if d == 6 {
        '6'
    } else if d == 7 {
        '7'
    } else if d == 8 {
        '8'
    } else {
        '9'
    }
}

fn scaled(bytes: u64, unit: u64) -> (r: String)
    requires
        unit == 0x400 || unit == 0x10_0000 || unit == 0x4000_0000,
        bytes >= unit,
    ensures
        r@ == two_places(hundredths(bytes as nat, unit as nat)),
{
    let n: u128 = bytes as u128 * 100;
    let u: u128 = unit as u128;
    let q: u128 = n / u;
    let rest: u128 = n % u;
    let h: u128 = if 2 * rest > u || (2 * rest == u && q % 2 == 1) {
        q + 1
    } else {
        q
    };
    assert(h == hundredths(bytes as nat, unit as nat));
    assert(h / 100 <= u64::MAX) by {
        assert(q <= n);
    }
    let whole = (h / 100) as u64;
    let mut r = u64_to_string(whole);
    r.push('.');
    r.push(single_digit(((h / 10) % 10) as u64));
    r.push(single_digit((h % 10) as u64));
    r
}

/// Writes a number of bytes for display.
pub fn format_bytes(bytes: u64) -> (r: String)
    ensures
        r@ == bytes_text(bytes),
{
    if bytes >= 0x4000_0000 {
        let mut r = scaled(bytes, 0x4000_0000);
        r.append(" GiB");
        r
    } else if bytes >= 0x10_0000 {
        let mut r = scaled(bytes, 0x10_0000);
        r.append(" MiB");
        r
    } else if bytes >= 0x400 {
        let mut r = scaled(bytes, 0x400);
        r.append(" KiB");
        r
    } else {
        let mut r = u64_to_string(bytes);
        r.append(" B");
        r
    }
}

/// The number of white-space characters at the start of `s`.
pub open spec fn leading_blanks(s: Seq<char>) -> int
    decreases s.len(),
{
    if s.len() == 0 || !is_whitespace(s[0]) {
        0
    } else {
        1 + leading_blanks(s.drop_first())
    }
}

/// The number of white-space characters at the end of `s`.
pub open spec fn trailing_blanks(s: Seq<char>) -> int
    decreases s.len(),
{
    if s.len() == 0 || !is_whitespace(s.last()) {
        0
    } else {
        1 + trailing_blanks(s.drop_last())
    }
}

/// A text without the white space around it.
pub open spec fn trimmed(s: Seq<char>) -> Seq<char> {
    let a = leading_blanks(s);
    let rest = s.skip(a);
    rest.take(rest.len() - trailing_blanks(rest))
}

proof fn lemma_leading_blanks(s: Seq<char>, n: int)
    requires
        0 <= n <= s.len(),
        forall|j: int| 0 <= j < n ==> is_whitespace(s[j]),
        n < s.len() ==> !is_whitespace(s[n]),
    ensures
        leading_blanks(s) == n,
    decreases s.len(),
{
    if n > 0 {
        let t = s.drop_first();
        assert forall|j: int| 0 <= j < n - 1 implies is_whitespace(t[j]) by {
            assert(t[j] == s[j + 1]);
        }
        lemma_leading_blanks(t, n - 1);
    }
}

proof fn lemma_trailing_blanks(s: Seq<char>, n: int)
    requires
        0 <= n <= s.len(),
        forall|j: int| s.len() - n <= j < s.len() ==> is_whitespace(s[j]),
        n < s.len() ==> !is_whitespace(s[s.len() - n - 1]),
    ensures
        trailing_blanks(s) == n,
    decreases s.len(),
{
    if n > 0 {
        let t = s.drop_last();
        assert forall|j: int| t.len() - (n - 1) <= j < t.len() implies is_whitespace(t[j]) by {
            assert(t[j] == s[j]);
        }
        lemma_trailing_blanks(t, n - 1);
    }
}

/// The characters of `s` without the white space around them.
pub fn trim(s: &[char]) -> (r: Vec<char>)
    ensures
        r@ == trimmed(s@),
{
    let mut start: usize = 0;
    while start < s.len() && whitespace(s[start])
        invariant
            start <= s.len(),
            forall|j: int| 0 <= j < start ==> is_whitespace(s@[j]),
        decreases s.len() - start,
    {
        start += 1;
    }
    proof {
        lemma_leading_blanks(s@, start as int);
    }
    let ghost rest = s@.skip(start as int);
    let mut end: usize = s.len();
    while end > start && whitespace(s[end - 1])
        invariant
            start <= end <= s.len(),
            forall|j: int| end <= j < s.len() ==> is_whitespace(s@[j]),
        decreases end,
    {
        end -= 1;
    }
    proof {
        assert forall|j: int| rest.len() - (s.len() - end) <= j < rest.len() implies is_whitespace(
            rest[j],
        ) by {
            assert(rest[j] == s@[start + j]);
        }
        if end > start {
            assert(rest[end - start - 1] == s@[end - 1]);
        }
        lemma_trailing_blanks(rest, s.len() - end);
    }
    let mut r: Vec<char> = Vec::new();
    let mut i: usize = start;
    while i < end
        invariant
            start <= i <= end <= s.len(),
            r@ == s@.subrange(start as int, i as int),
        decreases end - i,
    {
        r.push(s[i]);
        assert(s@.subrange(start as int, i + 1) =~= s@.subrange(start as int, i as int).push(
            s@[i as int],
        ));
        i += 1;
    }
    assert(r@ =~= trimmed(s@));
    r
}

/// What an answer to a prompt for one of `count` choices picks: the number
/// typed, less one, when it is a number from 1 to `count`; blanks around
/// the number are ignored.
pub open spec fn selection_of(input: Seq<char>, count: usize) -> Option<usize> {
    match parse_u64_text(trimmed(input)) {
        Some(n) => if 1 <= n <= count {
            Some((n - 1) as usize)
        } else {
            None
        },
        None => None,
    }
}

/// Reads the answer to a prompt that offers `count` choices, numbered from
/// one. Returns the position of the choice, or nothing for an answer that
/// picks none.
pub fn parse_selection(input: &str, count: usize) -> (r: Option<usize>)
    ensures
        r == selection_of(input@, count),
{
    let text = to_chars(input);
    let answer = trim(text.as_slice());
    match parse_u64(answer.as_slice()) {
        Some(n) => if n >= 1 && n <= count as u64 {
            Some((n - 1) as usize)
        } else {
            None
        },
        None => None,
    }
}

/// Whether an answer to a yes-or-no question says yes: whether it is `y`
/// or `Y`, blanks around it ignored.
pub fn is_yes(input: &str) -> (r: bool)
    ensures
        r == (trimmed(input@) == seq!['y'] || trimmed(input@) == seq!['Y']),
{
    let text = to_chars(input);
    let answer = trim(text.as_slice());
    let r = answer.len() == 1 && (answer[0] == 'y' || answer[0] == 'Y');
    proof {
        if answer.len() == 1 {
            assert(answer@ =~= seq![answer@[0]]);
        }
    }
    r
}

/// Whether `c` is the letter `lower` in either case.
pub open spec fn is_letter(c: char, lower: char, upper: char) -> bool {
    c == lower || c == upper
}

/// The number of bytes that the prefix of a unit stands for: a thousand, a
/// million or a thousand millions, or the powers of 1024 when the unit is a
/// binary one.
pub open spec fn prefix_value(c: char, binary: bool) -> Option<nat> {
    if is_letter(c, 'k', 'K') {
        Some(
            if binary {
                0x400
            } else {
                1_000
            },
        )
    } else if is_letter(c, 'm', 'M') {
        Some(
            if binary {
                0x10_0000
            } else {
                1_000_000
            },
        )
    } else if is_letter(c, 'g', 'G') {
        Some(
            if binary {
                0x4000_0000
            } else {
                1_000_000_000
            },
        )
    } else {
        None
    }
}

/// The unit that a size ends in, as the number of bytes it stands for and
/// the number of characters it takes: `B`, `KB`, `MB`, `GB`, `KiB`, `MiB`
/// or `GiB`, in any letter case.
pub open spec fn unit_of(t: Seq<char>) -> Option<(nat, int)> {
    let n = t.len() as int;
    if n == 0 || !is_letter(t[n - 1], 'b', 'B') {
        None
    } else if n >= 2 && is_letter(t[n - 2], 'i', 'I') {
        if n >= 3 && prefix_value(t[n - 3], true) is Some {
            Some((prefix_value(t[n - 3], true).unwrap(), 3))
        } else {
            None
        }
    } else if n >= 2 && prefix_value(t[n - 2], false) is Some {
        Some((prefix_value(t[n - 2], false).unwrap(), 2))
    } else {
        Some((1, 1))
    }
}

/// The first nine places of a fraction as a number of thousand-millionths.
pub open spec fn nine_places(fraction: Seq<char>) -> nat
    recommends
        all_digits(fraction),
{
    let shown = if fraction.len() > 9 {
        fraction.take(9)
    } else {
        fraction
    };
    digits_value(shown) * pow10((9 - shown.len()) as nat)
}

/// Ten to the power of `n`.
pub open spec fn pow10(n: nat) -> nat
    decreases n,
{
    if n == 0 {
        1
    } else {
        10 * pow10((n - 1) as nat)
    }
}

/// The number of bytes that a number with a unit means: the whole part
/// times the unit, and the fraction, read to nine places, times the unit,
/// rounded down. A number is digits, optionally followed by a point and
/// more digits.
pub open spec fn amount_of(number: Seq<char>, unit: nat) -> Option<u64> {
    let point = first_index_of(number, '.');
    let whole = number.take(point);
    let fraction = if point < number.len() {
        number.skip(point + 1)
    } else {
        Seq::empty()
    };
    if whole.len() == 0 || !all_digits(whole) || !all_digits(fraction) {
        None
    } else {
        let bytes = digits_value(whole) * unit + (nine_places(fraction) * unit) / 1_000_000_000;
        if bytes <= u64::MAX {
            Some(bytes as u64)
        } else {
            None
        }
    }
}

/// What a size such as `1.5 MiB` means in bytes. Blanks around the size
/// and between number and unit are ignored.
pub open spec fn size_of(text: Seq<char>) -> Option<u64> {
    let t = trimmed(text);
    match unit_of(t) {
        Some((unit, taken)) => amount_of(trimmed(t.take(t.len() - taken)), unit),
        None => None,
    }
}

fn prefix_of(c: char, binary: bool) -> (r: Option<u64>)
    ensures
        match r {
            Some(v) => prefix_value(c, binary) == Some(v as nat),
            None => prefix_value(c, binary) is None,
        },
{
    if c == 'k' || c == 'K' {
        Some(
            if binary {
                0x400
            } else {
                1_000
            },
        )
    } else if c == 'm' || c == 'M' {
        Some(
            if binary {
                0x10_0000
            } else {
                1_000_000
            },
        )
    } else if c == 'g' || c == 'G' {
        Some(
            if binary {
                0x4000_0000
            } else {
                1_000_000_000
            },
        )
    } else {
        None
    }
}

/// Reads the unit that `t` ends in: the number of bytes it stands for and
/// the number of characters it takes. Gives nothing where `t` ends in no
/// unit.
pub fn size_unit(t: &[char]) -> (r: Option<(u64, usize)>)
    ensures
        match r {
            Some((v, taken)) => unit_of(t@) == Some((v as nat, taken as int)) && 1 <= taken
                <= t.len() && 1 <= v <= 0x4000_0000,
            None => unit_of(t@) is None,
        },
{
    let n = t.len();
    if n == 0 || !(t[n - 1] == 'b' || t[n - 1] == 'B') {
        return None;
    }
    if n >= 2 && (t[n - 2] == 'i' || t[n - 2] == 'I') {
        if n >= 3 {
            match prefix_of(t[n - 3], true) {
                Some(v) => Some((v, 3)),
                None => None,
            }
        } else {
            None
        }
    } else if n >= 2 {
        match prefix_of(t[n - 2], false) {
            Some(v) => Some((v, 2)),
            None => Some((1, 1)),
        }
    } else {
        Some((1, 1))
    }
}

fn power_of_ten(n: usize) -> (r: u64)
    requires
        n <= 9,
    ensures
        r == pow10(n as nat),
        r <= 1_000_000_000,
{
    let mut r: u64 = 1;
    let mut i: usize = 0;
    proof {
        lemma_pow10();
    }
    while i < n
        invariant
            i <= n <= 9,
            r == pow10(i as nat),
            r <= pow10(9),
            pow10(9) == 1_000_000_000,
            forall|a: nat, b: nat| a <= b ==> #[trigger] pow10(a) <= #[trigger] pow10(b),
        decreases n - i,
    {
        proof {
            assert(pow10((i + 1) as nat) == 10 * pow10(i as nat));
            assert(pow10((i + 1) as nat) <= pow10(9));
        }
        r = r * 10;
        i += 1;
    }
    r
}

proof fn lemma_pow10()
    ensures
        pow10(9) == 1_000_000_000,
        forall|a: nat, b: nat| a <= b ==> #[trigger] pow10(a) <= #[trigger] pow10(b),
{
    reveal_with_fuel(pow10, 10);
    assert forall|a: nat, b: nat| a <= b implies #[trigger] pow10(a) <= #[trigger] pow10(b) by {
        lemma_pow10_monotonic(a, b);
    }
}

proof fn lemma_pow10_monotonic(a: nat, b: nat)
    requires
        a <= b,
    ensures
        pow10(a) <= pow10(b),
        pow10(a) >= 1,
    decreases b,
{
    if a < b {
        lemma_pow10_monotonic(a, (b - 1) as nat);
    } else if a > 0 {
        lemma_pow10_monotonic((a - 1) as nat, (a - 1) as nat);
    }
}

/// Reads the digits of `s`, of which there are at most nine.
fn short_number(s: &[char]) -> (r: Option<u64>)
    requires
        s.len() <= 9,
    ensures
        match r {
            Some(v) => all_digits(s@) && v == digits_value(s@) && v < pow10(s@.len()),
            None => !all_digits(s@),
        },
{
    let mut value: u64 = 0;
    let mut i: usize = 0;
    proof {
        lemma_pow10();
    }
    while i < s.len()
        invariant
            i <= s.len() <= 9,
            all_digits(s@.take(i as int)),
            value == digits_value(s@.take(i as int)),
            value < pow10(i as nat),
            pow10(9) == 1_000_000_000,
            forall|a: nat, b: nat| a <= b ==> #[trigger] pow10(a) <= #[trigger] pow10(b),
        decreases s.len() - i,
    {
        proof {
            assert(s@.take(i + 1).drop_last() =~= s@.take(i as int));
            assert(pow10((i + 1) as nat) == 10 * pow10(i as nat));
            assert(pow10(i as nat) <= pow10(9));
        }
        let d: u64 = match s[i] {
            '0' => 0,
            '1' => 1,
            '2' => 2,
            '3' => 3,
            '4' => 4,
            '5' => 5,
            '6' => 6,
            '7' => 7,
            '8' => 8,
            '9' => 9,
            _ => {
                assert(!all_digits(s@)) by {
                    assert(digit_value(s@[i as int]) is None);
                }
                return None;
            },
        };
        assert(digit_value(s@[i as int]) == Some(d as nat));
        value = value * 10 + d;
        assert(all_digits(s@.take(i + 1))) by {
            assert forall|j: int| 0 <= j < i + 1 implies (#[trigger] digit_value(
                s@.take(i + 1)[j],
            )) is Some by {
                if j < i {
                    assert(s@.take(i as int)[j] == s@[j]);
                }
            }
        }
        i += 1;
    }
    assert(s@.take(s.len() as int) =~= s@);
    Some(value)
}

fn only_digits(s: &[char]) -> (r: bool)
    ensures
        r == all_digits(s@),
{
    let mut i: usize = 0;
    while i < s.len()
        invariant
            i <= s.len(),
            forall|j: int| 0 <= j < i ==> (#[trigger] digit_value(s@[j])) is Some,
        decreases s.len() - i,
    {
        let c = s[i];
        let digit = c == '0' || c == '1' || c == '2' || c == '3' || c == '4' || c == '5' || c
            == '6' || c == '7' || c == '8' || c == '9';
        if !digit {
            assert(digit_value(s@[i as int]) is None);
            return false;
        }
        i += 1;
    }
    true
}

/// Reads `number` as a number of units of `unit` bytes each. Gives nothing
/// for a text that is no number and for an amount of 2^64 bytes or more.
pub fn size_amount(number: &[char], unit: u64) -> (r: Option<u64>)
    ensures
        r == amount_of(number@, unit as nat),
{
    let point = match find_char(number, '.') {
        Some(i) => i,
        None => number.len(),
    };
    let whole = vstd::slice::slice_subrange(number, 0, point);
    assert(whole@ =~= number@.take(point as int));
    let fraction = if point < number.len() {
        vstd::slice::slice_subrange(number, point + 1, number.len())
    } else {
        vstd::slice::slice_subrange(number, number.len(), number.len())
    };
    proof {
        if point < number.len() {
            assert(fraction@ =~= number@.skip(point + 1));
        } else {
            assert(fraction@ =~= Seq::<char>::empty());
        }
    }
    if whole.len() == 0 || !only_digits(whole) || !only_digits(fraction) {
        return None;
    }
    let shown = if fraction.len() > 9 {
        vstd::slice::slice_subrange(fraction, 0, 9)
    } else {
        fraction
    };
    proof {
        if fraction.len() > 9 {
            assert(shown@ =~= fraction@.take(9));
        }
        assert(all_digits(shown@)) by {
            assert forall|j: int| 0 <= j < shown@.len() implies (#[trigger] digit_value(
                shown@[j],
            )) is Some by {
                assert(shown@[j] == fraction@[j]);
            }
        }
        lemma_pow10();
    }
    let places: u64 = match short_number(shown) {
        Some(v) => v,
        None => 0,
    };
    let scale = power_of_ten(9 - shown.len());
    proof {
        assert(places < pow10(shown@.len()));
        assert(pow10(shown@.len()) * pow10((9 - shown@.len()) as nat) == pow10(9)) by {
            lemma_pow10_product(shown@.len(), (9 - shown@.len()) as nat);
        }
        assert(places * scale <= pow10(shown@.len()) * scale) by (nonlinear_arith)
            requires
                places < pow10(shown@.len()),
                scale >= 0,
        ;
        assert(places * scale <= 1_000_000_000);
    }
    let nine: u64 = places * scale;
    assert(nine == nine_places(fraction@));
    if unit == 0 {
        assert(digits_value(whole@) * 0 + (nine * 0) / 1_000_000_000 == 0) by (nonlinear_arith);
        return Some(0);
    }
    proof {
        assert(nine * unit <= 1_000_000_000 * 0xffff_ffff_ffff_ffff) by (nonlinear_arith)
            requires
                nine <= 1_000_000_000,
                unit <= 0xffff_ffff_ffff_ffff,
        ;
        assert((nine * unit) / 1_000_000_000 <= 0xffff_ffff_ffff_ffff) by (nonlinear_arith)
            requires
                0 <= nine * unit <= 1_000_000_000 * 0xffff_ffff_ffff_ffff,
        ;
    }
    let extra: u128 = (nine as u128 * unit as u128) / 1_000_000_000;
    let base = match parse_u64(whole) {
        Some(v) => v,
        None => {
            proof {
                assert(digits_value(whole@) > u64::MAX);
                assert(digits_value(whole@) * unit >= digits_value(whole@)) by (nonlinear_arith)
                    requires
                        unit >= 1,
                ;
            }
            return None;
        },
    };
    assert(base * unit <= 0xffff_ffff_ffff_ffff * 0xffff_ffff_ffff_ffff) by (nonlinear_arith)
        requires
            base <= 0xffff_ffff_ffff_ffff,
            unit <= 0xffff_ffff_ffff_ffff,
    ;
    let total: u128 = base as u128 * unit as u128 + extra;
    if total > u64::MAX as u128 {
        None
    } else {
        Some(total as u64)
    }
}

proof fn lemma_pow10_product(a: nat, b: nat)
    ensures
        pow10(a) * pow10(b) == pow10(a + b),
    decreases a,
{
    if a > 0 {
        lemma_pow10_product((a - 1) as nat, b);
        assert(pow10(a) * pow10(b) == 10 * (pow10((a - 1) as nat) * pow10(b))) by (nonlinear_arith)
            requires
                pow10(a) == 10 * pow10((a - 1) as nat),
        ;
        assert(pow10(a + b) == 10 * pow10((a + b - 1) as nat));
        assert((a - 1) as nat + b == (a + b - 1) as nat);
    } else {
        assert(pow10(0) == 1);
        assert(1 * pow10(b) == pow10(b)) by (nonlinear_arith);
    }
}

/// Reads a size such as `512B`, `10 MB` or `1.5 GiB` as a number of bytes.
/// Gives nothing for a text that is no size or for a size of 2^64 bytes or
/// more.
pub fn parse_size(size_str: &str) -> (r: Option<u64>)
    ensures
        r == size_of(size_str@),
{
    let text = to_chars(size_str);
    let t = trim(text.as_slice());
    match size_unit(t.as_slice()) {
        None => None,
        Some((v, taken)) => {
            let head = vstd::slice::slice_subrange(t.as_slice(), 0, t.len() - taken);
            assert(head@ =~= t@.take(t@.len() - taken));
            let number = trim(head);
            size_amount(number.as_slice(), v)
        },
    }
}

} // verus!
