//! Room identifiers and the cookie values that carry them.
//!
//! An identifier is written as sixteen upper case hexadecimal digits. A
//! cookie value is an identifier, a separator and the time of writing in
//! milliseconds since the Unix epoch; it is accepted for ten seconds.

use crate::clock::now_millis;
use crate::text::all_digits;
use crate::text::chars_of;
use crate::text::decimal;
use crate::text::hex;
use crate::text::is_digit;
use crate::text::lemma_decimal_digits;
use crate::text::lemma_hex_digits;
use crate::text::lemma_hex_of_number;
use crate::text::lemma_number_of_decimal;
use crate::text::lemma_number_of_hex;
use crate::text::lemma_sixteen_digits;
use crate::text::number;
use crate::text::parse_number;
use crate::text::parsed;
use crate::text::push_char;
use crate::text::push_decimal;
use crate::text::push_hex;
use vstd::prelude::*;

verus! {

/// The separator used in the cookie value.
pub const SEPARATOR: char = ':';

/// The maximum age of a cookie, in milliseconds.
pub const MAX_AGE: u64 = 10_000;

/// The number of digits of an identifier.
pub const WIDTH: usize = 16;

/// An identifier parse error.
#[derive(Clone, Copy, Debug, PartialEq, Eq, Structural)]
pub enum Error {
    /// The string format is invalid.
    Format,
    /// The timestamp is invalid.
    Timestamp,
    /// The cookie has expired.
    Expired,
    /// The cookie is missing.
    Missing,
}

/// A room identifier.
#[derive(Clone, Copy, Debug, PartialEq, Eq, Structural)]
pub struct Identifier(pub u64);

/// An identifier wrapped in a cookie value.
///
/// Identifiers wrapped in cookie values carry the time at which they were
/// written. The time is checked when a value is read and set when it is
/// written. Reading fails for a time too far in the past.
#[derive(Clone, Copy, Debug, PartialEq, Eq, Structural)]
pub struct IdentifierCookie(pub Identifier);

/// An identifier as text: sixteen hexadecimal digits, padded with zeros.
pub open spec fn id_text(id: Identifier) -> Seq<char> {
    hex(id.0 as nat, WIDTH as nat)
}

/// Whether `s` is an identifier as text.
pub open spec fn is_id_text(s: Seq<char>) -> bool {
    s.len() == WIDTH && all_digits(s, 16)
}

/// The identifier that the text `s` stands for.
pub open spec fn id_of(s: Seq<char>) -> Identifier
    recommends
        is_id_text(s),
{
    Identifier(number(s, 16) as u64)
}

/// What reading an identifier from `s` gives.
pub open spec fn read_id(s: Seq<char>) -> Result<Identifier, Error> {
    if is_id_text(s) {
        Ok(id_of(s))
    } else {
        Err(Error::Format)
    }
}

/// The end of the field of `s` that starts at `from`: the place of the first
/// separator at or after `from`, or the length of `s` where none follows.
pub open spec fn field_end(s: Seq<char>, from: int) -> int
    decreases s.len() - from,
{
    if from >= s.len() {
        s.len() as int
    } else if s[from] == SEPARATOR {
        from
    } else {
        field_end(s, from + 1)
    }
}

/// The time that the field `s` states: an unsigned decimal number of 64
/// bits, which a plus sign may precede.
pub open spec fn read_stamp(s: Seq<char>) -> Option<u64> {
    if s.len() > 0 && s[0] == '+' {
        parsed(s.skip(1), 10)
    } else {
        parsed(s, 10)
    }
}

/// Whether a cookie written at `then` is no longer accepted at `now`, both
/// in milliseconds since the epoch: ten seconds or more have passed since
/// it was written, or it claims to be written after `now`.
pub open spec fn expired(then: u64, now: u64) -> bool {
    now < then || now - then >= MAX_AGE
}

/// The identifier and the time of writing that the cookie value `s` holds.
///
/// The value is split at the separators. Without a separator, or where the
/// first field is no identifier, the format is wrong. The second field is
/// the time of writing. What follows a second separator is not read.
pub open spec fn fields(s: Seq<char>) -> Result<(Identifier, u64), Error> {
    let first = field_end(s, 0);
    let second = field_end(s, first + 1);
    if first >= s.len() {
        Err(Error::Format)
    } else if !is_id_text(s.subrange(0, first)) {
        Err(Error::Format)
    } else {
        match read_stamp(s.subrange(first + 1, second)) {
            None => Err(Error::Timestamp),
            Some(then) => Ok((id_of(s.subrange(0, first)), then)),
        }
    }
}

/// What reading the cookie value `s` at the time `now` gives.
pub open spec fn decoded(s: Seq<char>, now: u64) -> Result<IdentifierCookie, Error> {
    match fields(s) {
        Err(e) => Err(e),
        Ok((id, then)) => if expired(then, now) {
            Err(Error::Expired)
        } else {
            Ok(IdentifierCookie(id))
        },
    }
}

/// The cookie value for `id` written at the time `now`.
pub open spec fn encoded(id: Identifier, now: u64) -> Seq<char> {
    id_text(id) + seq![SEPARATOR] + decimal(now as nat)
}

/// What reading the cookie value `s` gives, for what the clock told: what
/// reading at that time gives, and where the clock told no time, the error
/// of a value that is malformed and expiry for any other.
pub open spec fn decoded_at(s: Seq<char>, now: Option<u64>) -> Result<IdentifierCookie, Error> {
    match now {
        Some(now) => decoded(s, now),
        None => match fields(s) {
            Err(e) => Err(e),
            Ok(_) => Err(Error::Expired),
        },
    }
}

/// The cookie value for `id`, for what the clock told: the value written
/// at that time, and none where the clock told no time.
pub open spec fn encoded_at(id: Identifier, now: Option<u64>) -> Option<Seq<char>> {
    match now {
        Some(now) => Some(encoded(id, now)),
        None => None,
    }
}

impl From<u64> for Identifier {
    /// Converts a number to an identifier.
    fn from(source: u64) -> (r: Self) {
        Identifier(source)
    }
}

impl vstd::std_specs::convert::FromSpecImpl<u64> for Identifier {
    open spec fn obeys_from_spec() -> bool {
        true
    }

    open spec fn from_spec(source: u64) -> Self {
        Identifier(source)
    }
}

impl From<IdentifierCookie> for Identifier {
    /// Takes the identifier out of a cookie.
    fn from(source: IdentifierCookie) -> (r: Self) {
        source.0
    }
}

impl vstd::std_specs::convert::FromSpecImpl<IdentifierCookie> for Identifier {
    open spec fn obeys_from_spec() -> bool {
        true
    }

    open spec fn from_spec(source: IdentifierCookie) -> Self {
        source.0
    }
}

impl From<Identifier> for IdentifierCookie {
    /// Wraps an identifier in a cookie.
    fn from(source: Identifier) -> (r: Self) {
        IdentifierCookie(source)
    }
}

impl vstd::std_specs::convert::FromSpecImpl<Identifier> for IdentifierCookie {
    open spec fn obeys_from_spec() -> bool {
        true
    }

    open spec fn from_spec(source: Identifier) -> Self {
        IdentifierCookie(source)
    }
}

impl Default for Identifier {
    /// The identifier zero.
    fn default() -> (r: Self)
        ensures
            r == Identifier(0),
    {
        Identifier(0)
    }
}

/// Reads `chars[from..to]` as an identifier.
fn read_id_in(chars: &Vec<char>, from: usize, to: usize) -> (r: Result<Identifier, Error>)
    requires
        from <= to <= chars.len(),
    ensures
        r == read_id(chars@.subrange(from as int, to as int)),
{
    if to - from != WIDTH {
        return Err(Error::Format);
    }
    match parse_number(chars, from, to, 16) {
        Some(v) => Ok(Identifier(v)),
        None => {
            proof {
                let s = chars@.subrange(from as int, to as int);
                if all_digits(s, 16) {
                    lemma_hex_of_number(s);
                    lemma_sixteen_digits(number(s, 16));
                }
            }
            Err(Error::Format)
        },
    }
}

/// Finds the end of the field of `chars` that starts at `from`.
fn find_field_end(chars: &Vec<char>, from: usize) -> (r: usize)
    requires
        from <= chars.len(),
    ensures
        r == field_end(chars@, from as int),
        from <= r <= chars.len(),
{
    let mut i: usize = from;
    while i < chars.len() && chars[i] != SEPARATOR
        invariant
            from <= i <= chars.len(),
            field_end(chars@, from as int) == field_end(chars@, i as int),
        decreases chars.len() - i,
    {
        i = i + 1;
    }
    i
}

/// Reads `chars[from..to]` as a time of writing.
fn read_stamp_in(chars: &Vec<char>, from: usize, to: usize) -> (r: Option<u64>)
    requires
        from <= to <= chars.len(),
    ensures
        r == read_stamp(chars@.subrange(from as int, to as int)),
{
    let ghost s = chars@.subrange(from as int, to as int);
    if from < to && chars[from] == '+' {
        assert(s.skip(1) =~= chars@.subrange(from + 1, to as int));
        parse_number(chars, from + 1, to, 10)
    } else {
        parse_number(chars, from, to, 10)
    }
}

/// Reads the two fields of a cookie value.
fn read_fields(source: &str) -> (r: Result<(Identifier, u64), Error>)
    ensures
        r == fields(source@),
{
    let chars = chars_of(source);
    let first = find_field_end(&chars, 0);
    if first >= chars.len() {
        return Err(Error::Format);
    }
    let id = match read_id_in(&chars, 0, first) {
        Ok(id) => id,
        Err(e) => {
            return Err(e);
        },
    };
    let second = find_field_end(&chars, first + 1);
    match read_stamp_in(&chars, first + 1, second) {
        Some(then) => Ok((id, then)),
        None => Err(Error::Timestamp),
    }
}

/// Decides whether a cookie written at `then` is no longer accepted at
/// `now`.
pub fn is_expired(then: u64, now: u64) -> (r: bool)
    ensures
        r == expired(then, now),
{
    now < then || now - then >= MAX_AGE
}

impl Identifier {
    /// Parses a room identifier from sixteen upper case hexadecimal digits.
    pub fn from_str(source: &str) -> (r: Result<Identifier, Error>)
        ensures
            r == read_id(source@),
    {
        let chars = chars_of(source);
        assert(chars@.subrange(0, chars.len() as int) =~= source@);
        read_id_in(&chars, 0, chars.len())
    }

    /// Writes this identifier as a hexadecimal number of sixteen digits,
    /// padded with zeros.
    pub fn to_string(&self) -> (r: String)
        ensures
            r@ == id_text(*self),
    {
        let mut r = String::new();
        push_hex(&mut r, self.0);
        r
    }
}

impl IdentifierCookie {
    /// Writes the cookie value for the time `now`, in milliseconds since
    /// the epoch.
    pub fn encode(&self, now: u64) -> (r: String)
        ensures
            r@ == encoded(self.0, now),
    {
        let mut r = String::new();
        push_hex(&mut r, self.0.0);
        push_char(&mut r, SEPARATOR);
        push_decimal(&mut r, now);
        r
    }

    /// Reads a cookie value at the time `now`, in milliseconds since the
    /// epoch.
    pub fn decode(source: &str, now: u64) -> (r: Result<IdentifierCookie, Error>)
        ensures
            r == decoded(source@, now),
    {
        match read_fields(source) {
            Err(e) => Err(e),
            Ok((id, then)) => if is_expired(then, now) {
                Err(Error::Expired)
            } else {
                Ok(IdentifierCookie(id))
            },
        }
    }

    /// Reads a cookie value, given what the clock told: the time in
    /// milliseconds since the epoch, or nothing. Without a time, a value
    /// of the right form counts as expired.
    pub fn decode_at(source: &str, now: Option<u64>) -> (r: Result<IdentifierCookie, Error>)
        ensures
            r == decoded_at(source@, now),
    {
        match now {
            Some(now) => Self::decode(source, now),
            None => match read_fields(source) {
                Err(e) => Err(e),
                Ok(_) => Err(Error::Expired),
            },
        }
    }

    /// Writes the cookie value, given what the clock told: the time in
    /// milliseconds since the epoch, or nothing. Without a time, nothing
    /// is written.
    pub fn encode_at(&self, now: Option<u64>) -> (r: Option<String>)
        ensures
            match r {
                Some(s) => encoded_at(self.0, now) == Some(s@),
                None => encoded_at(self.0, now) is None,
            },
    {
        match now {
            Some(now) => Some(self.encode(now)),
            None => None,
        }
    }

    /// Reads a cookie value at the present time.
    ///
    /// The result is that of `decode_at` for what the clock tells. Where
    /// the clock cannot tell the time, a value of the right form counts as
    /// expired.
    pub fn from_str(source: &str) -> (r: Result<IdentifierCookie, Error>)
        ensures
            match fields(source@) {
                Err(e) => r == Err::<IdentifierCookie, Error>(e),
                Ok((id, then)) => r == Err::<IdentifierCookie, Error>(Error::Expired) || r == Ok::<
                    IdentifierCookie,
                    Error,
                >(IdentifierCookie(id)),
            },
            r is Ok ==> exists|now: u64| r == decoded(source@, now),
    {
        Self::decode_at(source, now_millis())
    }

    /// Writes the cookie value for the present time, or nothing where the
    /// clock cannot tell the time.
    ///
    /// The result is that of `encode_at` for what the clock tells.
    pub fn to_string(&self) -> (r: Option<String>)
        ensures
            r matches Some(s) ==> exists|now: u64| s@ == encoded(self.0, now),
    {
        self.encode_at(now_millis())
    }
}

/// The separator is no digit.
proof fn lemma_digits_hold_no_separator(s: Seq<char>, radix: nat, i: int)
    requires
        all_digits(s, radix),
        0 <= i < s.len(),
    ensures
        s[i] != SEPARATOR,
        s[i] != '+',
{
    assert(is_digit(s[i], radix));
}

/// A field that starts at `from` and holds digits up to `to` ends at the
/// first separator at or after `to`.
proof fn lemma_field_end_skips_digits(s: Seq<char>, radix: nat, from: int, to: int)
    requires
        0 <= from <= to <= s.len(),
        all_digits(s.subrange(from, to), radix),
    ensures
        field_end(s, from) == field_end(s, to),
    decreases to - from,
{
    if from < to {
        let part = s.subrange(from, to);
        lemma_digits_hold_no_separator(part, radix, 0);
        assert(part[0] == s[from]);
        assert forall|i: int| 0 <= i < to - (from + 1) implies is_digit(
            #[trigger] s.subrange(from + 1, to)[i],
            radix,
        ) by {
            assert(s.subrange(from + 1, to)[i] == part[i + 1]);
        }
        lemma_field_end_skips_digits(s, radix, from + 1, to);
    }
}

/// A cookie value that was written at the time `then` and is read at the
/// time `now` gives its identifier if it is read no earlier than it was
/// written and fewer than ten seconds later, and is expired otherwise.
pub proof fn law_cookie_round_trip(id: Identifier, then: u64, now: u64)
    ensures
        decoded(encoded(id, then), now) == if then <= now < then + MAX_AGE {
            Ok::<IdentifierCookie, Error>(IdentifierCookie(id))
        } else {
            Err::<IdentifierCookie, Error>(Error::Expired)
        },
{
    lemma_fields_of_encoded(id, then);
}

/// A cookie value holds the identifier and the time that it was written
/// with.
pub proof fn lemma_fields_of_encoded(id: Identifier, then: u64)
    ensures
        fields(encoded(id, then)) == Ok::<(Identifier, u64), Error>((id, then)),
{
    let s = encoded(id, then);
    let head = id_text(id);
    let tail = decimal(then as nat);
    lemma_hex_digits(id.0 as nat, WIDTH as nat);
    lemma_decimal_digits(then as nat);
    lemma_sixteen_digits(id.0 as nat);
    lemma_number_of_hex(id.0 as nat, WIDTH as nat);
    lemma_number_of_decimal(then as nat);
    assert(s.len() == 17 + tail.len());
    assert(s.subrange(0, 16) =~= head);
    assert(s[16] == SEPARATOR);
    assert(s.subrange(17, s.len() as int) =~= tail);
    lemma_field_end_skips_digits(s, 16, 0, 16);
    assert(field_end(s, 0) == 16);
    lemma_field_end_skips_digits(s, 10, 17, s.len() as int);
    assert(field_end(s, 17) == s.len());
    lemma_digits_hold_no_separator(tail, 10, 0);
    assert(read_stamp(tail) == Some(then));
}

/// An identifier that is written and read again is the same identifier.
pub proof fn law_identifier_round_trip(id: Identifier)
    ensures
        read_id(id_text(id)) == Ok::<Identifier, Error>(id),
{
    lemma_hex_digits(id.0 as nat, WIDTH as nat);
    lemma_sixteen_digits(id.0 as nat);
    lemma_number_of_hex(id.0 as nat, WIDTH as nat);
}

/// Two identifiers with the same text are the same identifier.
pub proof fn law_identifier_text_differs(a: Identifier, b: Identifier)
    requires
        id_text(a) == id_text(b),
    ensures
        a == b,
{
    law_identifier_round_trip(a);
    law_identifier_round_trip(b);
}

/// A value without a separator has the wrong format, at any time.
pub proof fn law_no_separator(s: Seq<char>, now: u64)
    requires
        !s.contains(SEPARATOR),
    ensures
        decoded(s, now) == Err::<IdentifierCookie, Error>(Error::Format),
{
    lemma_field_end_without_separator(s, 0);
}

/// Where no separator stands at or after `from`, the field that starts
/// there runs to the end.
proof fn lemma_field_end_without_separator(s: Seq<char>, from: int)
    requires
        0 <= from,
        !s.contains(SEPARATOR),
    ensures
        field_end(s, from) >= s.len(),
    decreases s.len() - from,
{
    if from < s.len() {
        assert(s.contains(s[from]));
        lemma_field_end_without_separator(s, from + 1);
    }
}

/// A value whose first field is not sixteen hexadecimal digits has the
/// wrong format, at any time.
pub proof fn law_first_field_not_hex(s: Seq<char>, now: u64)
    requires
        !is_id_text(s.subrange(0, field_end(s, 0))),
    ensures
        decoded(s, now) == Err::<IdentifierCookie, Error>(Error::Format),
{
}

/// A value whose first field is an identifier and whose second field,
/// after a separator, is no number has a wrong timestamp, at any time.
pub proof fn law_second_field_not_numeric(s: Seq<char>, now: u64)
    requires
        field_end(s, 0) < s.len(),
        is_id_text(s.subrange(0, field_end(s, 0))),
        read_stamp(s.subrange(field_end(s, 0) + 1, field_end(s, field_end(s, 0) + 1))) is None,
    ensures
        decoded(s, now) == Err::<IdentifierCookie, Error>(Error::Timestamp),
{
}

} // verus!
