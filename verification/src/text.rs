//! Numbers written as text: digits, numerals of fixed and of minimal width,
//! and the conversions between text and numbers, each with its proof.

use vstd::prelude::*;
use vstd::std_specs::iter::IteratorSpec;

verus! {

/// The digits, in the order of their values.
pub open spec fn digits() -> Seq<char> {
    seq!['0', '1', '2', '3', '4', '5', '6', '7', '8', '9', 'A', 'B', 'C', 'D', 'E', 'F']
}

/// The character that stands for the digit `d`.
pub open spec fn digit_char(d: nat) -> char
    recommends
        d < 16,
{
    digits()[d as int]
}

/// The value of `c` read as a digit: `0` to `9`, then upper case `A` to `F`.
/// Nothing else is a digit.
pub open spec fn digit_value(c: char) -> Option<nat> {
    if '0' <= c && c <= '9' {
        Some((c as u32 - '0' as u32) as nat)
    } else if 'A' <= c && c <= 'F' {
        Some((c as u32 - 'A' as u32 + 10) as nat)
    } else {
        None
    }
}

/// Whether `c` is a digit below `radix`.
pub open spec fn is_digit(c: char, radix: nat) -> bool {
    digit_value(c) matches Some(d) && d < radix
}

/// Whether every character of `s` is a digit below `radix`.
pub open spec fn all_digits(s: Seq<char>, radix: nat) -> bool {
    forall|i: int| 0 <= i < s.len() ==> is_digit(#[trigger] s[i], radix)
}

/// The number that the digits of `s` denote in base `radix`, the most
/// significant digit first.
pub open spec fn number(s: Seq<char>, radix: nat) -> nat
    decreases s.len(),
{
    if s.len() == 0 {
        0
    } else {
        number(s.drop_last(), radix) * radix + digit_value(s.last()).unwrap()
    }
}

/// `v` written in hexadecimal with exactly `width` digits; digits that do not
/// fit are dropped from the front.
pub open spec fn hex(v: nat, width: nat) -> Seq<char>
    decreases width,
{
    if width == 0 {
        Seq::empty()
    } else {
        hex(v / 16, (width - 1) as nat).push(digit_char(v % 16))
    }
}

/// `v` written in decimal with as few digits as possible, but at least one.
pub open spec fn decimal(v: nat) -> Seq<char>
    decreases v,
{
    if v < 10 {
        seq![digit_char(v)]
    } else {
        decimal(v / 10).push(digit_char(v % 10))
    }
}

/// Whether `v` can be written with `width` hexadecimal digits.
pub open spec fn hex_fits(v: nat, width: nat) -> bool
    decreases width,
{
    if width == 0 {
        v == 0
    } else {
        hex_fits(v / 16, (width - 1) as nat)
    }
}

/// What reading `s` as an unsigned number in base `radix` gives: the number,
/// where `s` is one or more digits and the number fits in 64 bits.
pub open spec fn parsed(s: Seq<char>, radix: nat) -> Option<u64> {
    if s.len() > 0 && all_digits(s, radix) && number(s, radix) <= u64::MAX {
        Some(number(s, radix) as u64)
    } else {
        None
    }
}

/// The two bases in use.
pub open spec fn known_radix(radix: nat) -> bool {
    radix == 10 || radix == 16
}

/// A digit's character is a digit again, with the same value.
pub proof fn lemma_digit_char_value(d: nat)
    requires
        d < 16,
    ensures
        digit_value(digit_char(d)) == Some(d),
{
    let t = digits();
    assert(t[0] == '0' && t[1] == '1' && t[2] == '2' && t[3] == '3');
    assert(t[4] == '4' && t[5] == '5' && t[6] == '6' && t[7] == '7');
    assert(t[8] == '8' && t[9] == '9' && t[10] == 'A' && t[11] == 'B');
    assert(t[12] == 'C' && t[13] == 'D' && t[14] == 'E' && t[15] == 'F');
}

/// A digit's value gives its character back.
pub proof fn lemma_digit_value_char(c: char)
    requires
        digit_value(c) is Some,
    ensures
        digit_value(c).unwrap() < 16,
        digit_char(digit_value(c).unwrap()) == c,
{
    let t = digits();
    assert(t[0] == '0' && t[1] == '1' && t[2] == '2' && t[3] == '3');
    assert(t[4] == '4' && t[5] == '5' && t[6] == '6' && t[7] == '7');
    assert(t[8] == '8' && t[9] == '9' && t[10] == 'A' && t[11] == 'B');
    assert(t[12] == 'C' && t[13] == 'D' && t[14] == 'E' && t[15] == 'F');
}

/// A hexadecimal numeral of fixed width consists of `width` digits.
pub proof fn lemma_hex_digits(v: nat, width: nat)
    ensures
        hex(v, width).len() == width,
        all_digits(hex(v, width), 16),
    decreases width,
{
    if width > 0 {
        let head = hex(v / 16, (width - 1) as nat);
        lemma_hex_digits(v / 16, (width - 1) as nat);
        lemma_digit_char_value(v % 16);
        let s = hex(v, width);
        assert forall|i: int| 0 <= i < s.len() implies is_digit(#[trigger] s[i], 16) by {
            if i < head.len() {
                assert(s[i] == head[i]);
            }
        }
    }
}

/// Reading a hexadecimal numeral of fixed width gives the number back,
/// where the number fits the width.
pub proof fn lemma_number_of_hex(v: nat, width: nat)
    requires
        hex_fits(v, width),
    ensures
        number(hex(v, width), 16) == v,
    decreases width,
{
    if width > 0 {
        let head = hex(v / 16, (width - 1) as nat);
        lemma_number_of_hex(v / 16, (width - 1) as nat);
        lemma_digit_char_value(v % 16);
        let s = hex(v, width);
        assert(s.drop_last() =~= head);
        assert(s.last() == digit_char(v % 16));
        assert(number(s, 16) == (v / 16) * 16 + v % 16);
    }
}

/// Writing the number that hexadecimal digits denote, with as many digits,
/// gives the digits back.
pub proof fn lemma_hex_of_number(s: Seq<char>)
    requires
        all_digits(s, 16),
    ensures
        hex_fits(number(s, 16), s.len()),
        hex(number(s, 16), s.len()) == s,
    decreases s.len(),
{
    if s.len() > 0 {
        let head = s.drop_last();
        let d = digit_value(s.last()).unwrap();
        assert(is_digit(s[s.len() - 1], 16));
        assert forall|i: int| 0 <= i < head.len() implies is_digit(#[trigger] head[i], 16) by {
            assert(head[i] == s[i]);
        }
        lemma_hex_of_number(head);
        lemma_digit_value_char(s.last());
        let v = number(s, 16);
        assert(v == number(head, 16) * 16 + d);
        assert(v / 16 == number(head, 16) && v % 16 == d);
        assert(hex(v, s.len()) =~= s);
    }
}

/// A decimal numeral consists of decimal digits, at least one.
pub proof fn lemma_decimal_digits(v: nat)
    ensures
        decimal(v).len() > 0,
        all_digits(decimal(v), 10),
    decreases v,
{
    let s = decimal(v);
    if v < 10 {
        lemma_digit_char_value(v);
        assert(s[0] == digit_char(v));
    } else {
        let head = decimal(v / 10);
        lemma_decimal_digits(v / 10);
        lemma_digit_char_value(v % 10);
        assert forall|i: int| 0 <= i < s.len() implies is_digit(#[trigger] s[i], 10) by {
            if i < head.len() {
                assert(s[i] == head[i]);
            }
        }
    }
}

/// Reading a decimal numeral gives the number back.
pub proof fn lemma_number_of_decimal(v: nat)
    ensures
        number(decimal(v), 10) == v,
    decreases v,
{
    let s = decimal(v);
    if v < 10 {
        lemma_digit_char_value(v);
        assert(s.drop_last() =~= Seq::<char>::empty());
        assert(s.last() == digit_char(v));
        assert(number(s.drop_last(), 10) == 0);
    } else {
        let head = decimal(v / 10);
        lemma_number_of_decimal(v / 10);
        lemma_digit_char_value(v % 10);
        assert(s.drop_last() =~= head);
        assert(s.last() == digit_char(v % 10));
        assert(number(s, 10) == (v / 10) * 10 + v % 10);
    }
}

/// The number that a prefix of a run of digits denotes is no larger than
/// the number that the whole run denotes.
pub proof fn lemma_number_grows(s: Seq<char>, radix: nat, n: int)
    requires
        known_radix(radix),
        0 <= n <= s.len(),
    ensures
        number(s.take(n), radix) <= number(s, radix),
    decreases s.len() - n,
{
    if n == s.len() {
        assert(s.take(n) =~= s);
    } else {
        lemma_number_grows(s, radix, n + 1);
        let t = s.take(n + 1);
        assert(t.drop_last() =~= s.take(n));
        if radix == 10 {
            assert(number(t, radix) >= number(s.take(n), radix) * 10);
        } else {
            assert(number(t, radix) >= number(s.take(n), radix) * 16);
        }
    }
}

/// The numbers of 64 bits are those that sixteen hexadecimal digits can
/// write.
pub proof fn lemma_sixteen_digits(v: nat)
    ensures
        v <= u64::MAX <==> hex_fits(v, 16),
{
    reveal_with_fuel(hex_fits, 17);
}

/// The digit for a value below sixteen.
pub fn digit_for(d: u8) -> (c: char)
    requires
        d < 16,
    ensures
        c == digit_char(d as nat),
{
    let t = Ghost(digits());
    assert(t@[0] == '0' && t@[1] == '1' && t@[2] == '2' && t@[3] == '3');
    assert(t@[4] == '4' && t@[5] == '5' && t@[6] == '6' && t@[7] == '7');
    assert(t@[8] == '8' && t@[9] == '9' && t@[10] == 'A' && t@[11] == 'B');
    assert(t@[12] == 'C' && t@[13] == 'D' && t@[14] == 'E' && t@[15] == 'F');
    match d {
        0 => '0',
        1 => '1',
        2 => '2',
        3 => '3',
        4 => '4',
        5 => '5',
        6 => '6',
        7 => '7',
        8 => '8',
        9 => '9',
        10 => 'A',
        11 => 'B',
        12 => 'C',
        13 => 'D',
        14 => 'E',
        _ => 'F',
    }
}

/// The value of a character read as a digit.
pub fn value_of(c: char) -> (r: Option<u8>)
    ensures
        r is Some <==> digit_value(c) is Some,
        r matches Some(d) ==> d < 16 && digit_value(c) == Some(d as nat),
{
    if '0' <= c && c <= '9' {
        Some((c as u32 - '0' as u32) as u8)
    } else if 'A' <= c && c <= 'F' {
        Some((c as u32 - 'A' as u32 + 10) as u8)
    } else {
        None
    }
}

/// `String::push` of the standard library, which appends one character to
/// the end of a string.
#[verifier::external_body]
pub(crate) fn push_char(s: &mut String, c: char)
    ensures
        final(s)@ == old(s)@.push(c),
{
    s.push(c)
}

/// The characters of `s`, in order.
pub fn chars_of(s: &str) -> (r: Vec<char>)
    ensures
        r@ == s@,
{
    let mut r: Vec<char> = Vec::new();
    for c in it: s.chars()
        invariant
            r@ == it.seq().take(it.index() as int),
    {
        r.push(c);
    }
    r
}

/// Appends the characters `chars[from..to]` to `s`.
pub fn push_chars(s: &mut String, chars: &Vec<char>, from: usize, to: usize)
    requires
        from <= to <= chars.len(),
    ensures
        final(s)@ == old(s)@ + chars@.subrange(from as int, to as int),
{
    let mut i: usize = from;
    while i < to
        invariant
            from <= i <= to <= chars.len(),
            s@ == old(s)@ + chars@.subrange(from as int, i as int),
        decreases to - i,
    {
        push_char(s, chars[i]);
        i = i + 1;
    }
}

/// Reads `chars[from..to]` as an unsigned number in base `radix`.
pub fn parse_number(chars: &Vec<char>, from: usize, to: usize, radix: u8) -> (r: Option<u64>)
    requires
        from <= to <= chars.len(),
        known_radix(radix as nat),
    ensures
        r == parsed(chars@.subrange(from as int, to as int), radix as nat),
{
    let ghost s = chars@.subrange(from as int, to as int);
    if from == to {
        return None;
    }
    let mut acc: u64 = 0;
    let mut i: usize = from;
    while i < to
        invariant
            from <= i <= to <= chars.len(),
            known_radix(radix as nat),
            s == chars@.subrange(from as int, to as int),
            all_digits(s.take(i - from), radix as nat),
            acc == number(s.take(i - from), radix as nat),
        decreases to - i,
    {
        let ghost head = s.take(i - from);
        let ghost next = s.take(i - from + 1);
        proof {
            assert(next.drop_last() =~= head);
            assert(next.last() == chars@[i as int]);
            assert(s[i - from] == chars@[i as int]);
        }
        let digit = match value_of(chars[i]) {
            Some(d) => d,
            None => {
                assert(!is_digit(s[i - from], radix as nat));
                return None;
            },
        };
        if digit >= radix {
            assert(!is_digit(s[i - from], radix as nat));
            return None;
        }
        proof {
            assert forall|j: int| 0 <= j < next.len() implies is_digit(
                #[trigger] next[j],
                radix as nat,
            ) by {
                if j < head.len() {
                    assert(next[j] == head[j]);
                }
            }
            lemma_number_grows(s, radix as nat, i - from + 1);
            if radix == 10 {
                assert(number(next, radix as nat) == acc * 10 + digit);
            } else {
                assert(number(next, radix as nat) == acc * 16 + digit);
            }
        }
        let shifted = match acc.checked_mul(radix as u64) {
            Some(v) => v,
            None => {
                return None;
            },
        };
        acc = match shifted.checked_add(digit as u64) {
            Some(v) => v,
            None => {
                return None;
            },
        };
        i = i + 1;
    }
    assert(s.take(i - from) =~= s);
    Some(acc)
}

/// Appends `v`, written with sixteen hexadecimal digits, to `s`.
pub fn push_hex(s: &mut String, v: u64)
    ensures
        final(s)@ == old(s)@ + hex(v as nat, 16),
{
    let mut buf: Vec<char> = Vec::new();
    let mut k: usize = 0;
    while k < 16
        invariant
            k <= 16,
            buf.len() == k,
        decreases 16 - k,
    {
        buf.push('0');
        k = k + 1;
    }
    let mut rest: u64 = v;
    let mut i: usize = 16;
    while i > 0
        invariant
            i <= 16,
            buf.len() == 16,
            hex(v as nat, 16) == hex(rest as nat, i as nat) + buf@.subrange(i as int, 16),
        decreases i,
    {
        let ghost before = buf@;
        let c = digit_for((rest % 16) as u8);
        i = i - 1;
        buf.set(i, c);
        proof {
            assert(buf@.subrange(i as int, 16) =~= seq![c] + before.subrange(i + 1, 16));
            assert(hex(rest as nat, (i + 1) as nat) == hex((rest / 16) as nat, i as nat).push(c));
            assert(hex(v as nat, 16) =~= hex((rest / 16) as nat, i as nat) + buf@.subrange(
                i as int,
                16,
            ));
        }
        rest = rest / 16;
    }
    assert(buf@.subrange(0, 16) =~= hex(v as nat, 16));
    push_chars(s, &buf, 0, 16);
}

/// Appends `v`, written in decimal, to `s`.
pub fn push_decimal(s: &mut String, v: u64)
    ensures
        final(s)@ == old(s)@ + decimal(v as nat),
{
    // The digits, the least significant first.
    let mut buf: Vec<char> = Vec::new();
    let mut rest: u64 = v;
    while rest >= 10
        invariant
            decimal(v as nat) == decimal(rest as nat) + buf@.reverse(),
        decreases rest,
    {
        let ghost before = buf@;
        let c = digit_for((rest % 10) as u8);
        buf.push(c);
        proof {
            assert(buf@.reverse() =~= seq![c] + before.reverse());
            assert(decimal(v as nat) =~= decimal((rest / 10) as nat) + buf@.reverse());
        }
        rest = rest / 10;
    }
    let c = digit_for(rest as u8);
    buf.push(c);
    assert(buf@.reverse() =~= seq![c] + buf@.drop_last().reverse());
    assert(decimal(v as nat) =~= buf@.reverse());
    let mut i: usize = buf.len();
    while i > 0
        invariant
            i <= buf.len(),
            s@ == old(s)@ + buf@.reverse().take(buf.len() - i),
        decreases i,
    {
        let ghost done = buf@.reverse().take(buf.len() - i);
        i = i - 1;
        push_char(s, buf[i]);
        assert(buf@.reverse().take(buf.len() - i) =~= done.push(buf@[i as int]));
    }
    assert(buf@.reverse().take(buf.len() as int) =~= buf@.reverse());
}

} // verus!
