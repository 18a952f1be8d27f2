use backend::messages::xid::Error;
use backend::messages::xid::Identifier;
use backend::messages::xid::IdentifierCookie;
use backend::messages::xid::is_expired;
use backend::messages::xid::MAX_AGE;
use backend::messages::xid::SEPARATOR;

#[test]
fn identifier_is_written_with_sixteen_upper_case_digits() {
    assert_eq!(Identifier::from(0).to_string(), "0000000000000000");
    assert_eq!(Identifier::from(0x1234_abcd).to_string(), "000000001234ABCD");
    assert_eq!(Identifier::from(u64::MAX).to_string(), "FFFFFFFFFFFFFFFF");
    assert_eq!(Identifier::from(0xfedc_ba98_7654_3210).to_string(), "FEDCBA9876543210");
}

#[test]
fn identifier_is_read_from_sixteen_upper_case_digits() {
    assert_eq!(Identifier::from_str("0000000000000000"), Ok(Identifier(0)));
    assert_eq!(Identifier::from_str("000000001234ABCD"), Ok(Identifier(0x1234_abcd)));
    assert_eq!(Identifier::from_str("FFFFFFFFFFFFFFFF"), Ok(Identifier(u64::MAX)));
}

#[test]
fn identifier_of_another_shape_is_a_format_error() {
    assert_eq!(Identifier::from_str(""), Err(Error::Format));
    assert_eq!(Identifier::from_str("1234ABCD"), Err(Error::Format));
    assert_eq!(Identifier::from_str("000000001234abcd"), Err(Error::Format));
    assert_eq!(Identifier::from_str("00000000000000000"), Err(Error::Format));
    assert_eq!(Identifier::from_str("+000000000000001"), Err(Error::Format));
    assert_eq!(Identifier::from_str("000000000000000G"), Err(Error::Format));
    assert_eq!(Identifier::from_str("00000000 0000001"), Err(Error::Format));
    assert_eq!(Identifier::from_str("000000000000000é"), Err(Error::Format));
}

#[test]
fn identifier_survives_writing_and_reading() {
    for value in [0u64, 1, 15, 16, 255, 0xdead_beef, 1 << 63, u64::MAX - 1, u64::MAX] {
        let id = Identifier::from(value);
        assert_eq!(Identifier::from_str(&id.to_string()), Ok(id));
    }
}

#[test]
fn identifier_conversions() {
    assert_eq!(Identifier::from(7u64), Identifier(7));
    assert_eq!(Identifier::default(), Identifier(0));
    assert_eq!(Identifier::from(IdentifierCookie(Identifier(9))), Identifier(9));
    assert_eq!(IdentifierCookie::from(Identifier(9)), IdentifierCookie(Identifier(9)));
}

#[test]
fn cookie_is_written_as_identifier_separator_and_time() {
    assert_eq!(SEPARATOR, ':');
    assert_eq!(IdentifierCookie(Identifier(255)).encode(1234), "00000000000000FF:1234");
    assert_eq!(IdentifierCookie(Identifier(0)).encode(0), "0000000000000000:0");
    assert_eq!(
        IdentifierCookie(Identifier(u64::MAX)).encode(u64::MAX),
        "FFFFFFFFFFFFFFFF:18446744073709551615"
    );
    assert_eq!(
        IdentifierCookie(Identifier(0xabc)).encode(1_700_000_000_000),
        "0000000000000ABC:1700000000000"
    );
}

#[test]
fn cookie_is_read_within_ten_seconds() {
    let id = Identifier(0xabc);
    let value = IdentifierCookie(id).encode(5_000);
    assert_eq!(MAX_AGE, 10_000);
    assert_eq!(IdentifierCookie::decode(&value, 5_000), Ok(IdentifierCookie(id)));
    assert_eq!(IdentifierCookie::decode(&value, 5_001), Ok(IdentifierCookie(id)));
    assert_eq!(IdentifierCookie::decode(&value, 14_999), Ok(IdentifierCookie(id)));
}

#[test]
fn cookie_expires_after_ten_seconds() {
    let value = IdentifierCookie(Identifier(0xabc)).encode(5_000);
    assert_eq!(IdentifierCookie::decode(&value, 15_000), Err(Error::Expired));
    assert_eq!(IdentifierCookie::decode(&value, 15_001), Err(Error::Expired));
    assert_eq!(IdentifierCookie::decode(&value, u64::MAX), Err(Error::Expired));
}

#[test]
fn cookie_round_trip_at_many_times() {
    for value in [0u64, 42, u64::MAX] {
        for then in [0u64, 1, 9_999, 10_000, 1_700_000_000_000, u64::MAX - 10_000, u64::MAX] {
            for age in [0u64, 1, 9_999, 10_000, 10_001, 1_000_000] {
                let now = match then.checked_add(age) {
                    Some(now) => now,
                    None => continue,
                };
                let text = IdentifierCookie(Identifier(value)).encode(then);
                let expected = if age < 10_000 {
                    Ok(IdentifierCookie(Identifier(value)))
                } else {
                    Err(Error::Expired)
                };
                assert_eq!(IdentifierCookie::decode(&text, now), expected);
            }
        }
    }
}

#[test]
fn cookie_without_separator_is_a_format_error() {
    assert_eq!(IdentifierCookie::decode("", 0), Err(Error::Format));
    assert_eq!(IdentifierCookie::decode("0000000000000ABC", 0), Err(Error::Format));
    assert_eq!(IdentifierCookie::decode("0000000000000ABC1234", 0), Err(Error::Format));
    assert_eq!(IdentifierCookie::decode("xyz", 0), Err(Error::Format));
}

#[test]
fn cookie_with_a_first_field_that_is_not_hex_is_a_format_error() {
    assert_eq!(IdentifierCookie::decode("000000000000WXYZ:1234", 1234), Err(Error::Format));
    assert_eq!(IdentifierCookie::decode(":1234", 1234), Err(Error::Format));
    assert_eq!(IdentifierCookie::decode("ABC:1234", 1234), Err(Error::Format));
    assert_eq!(IdentifierCookie::decode("0000000000000abc:1234", 1234), Err(Error::Format));
    assert_eq!(IdentifierCookie::decode("000000000000WXYZ:abc", 1234), Err(Error::Format));
}

#[test]
fn cookie_with_a_second_field_that_is_no_number_is_a_timestamp_error() {
    assert_eq!(IdentifierCookie::decode("0000000000000ABC:", 0), Err(Error::Timestamp));
    assert_eq!(IdentifierCookie::decode("0000000000000ABC:abc", 0), Err(Error::Timestamp));
    assert_eq!(IdentifierCookie::decode("0000000000000ABC:12x", 0), Err(Error::Timestamp));
    assert_eq!(IdentifierCookie::decode("0000000000000ABC:-1", 0), Err(Error::Timestamp));
    assert_eq!(IdentifierCookie::decode("0000000000000ABC:+", 0), Err(Error::Timestamp));
    assert_eq!(IdentifierCookie::decode("0000000000000ABC: 12", 0), Err(Error::Timestamp));
    assert_eq!(IdentifierCookie::decode("0000000000000ABC:1A", 0), Err(Error::Timestamp));
    assert_eq!(
        IdentifierCookie::decode("0000000000000ABC:18446744073709551616", 0),
        Err(Error::Timestamp)
    );
    assert_eq!(IdentifierCookie::decode("0000000000000ABC::12", 0), Err(Error::Timestamp));
}

#[test]
fn cookie_time_may_have_a_sign_and_leading_zeros() {
    let expected = Ok(IdentifierCookie(Identifier(0xabc)));
    assert_eq!(IdentifierCookie::decode("0000000000000ABC:+1234", 1234), expected);
    assert_eq!(IdentifierCookie::decode("0000000000000ABC:0001234", 1234), expected);
    assert_eq!(
        IdentifierCookie::decode("0000000000000ABC:18446744073709551615", u64::MAX),
        expected
    );
}

#[test]
fn cookie_fields_after_the_second_are_not_read() {
    let expected = Ok(IdentifierCookie(Identifier(0xabc)));
    assert_eq!(IdentifierCookie::decode("0000000000000ABC:1234:more", 1234), expected);
    assert_eq!(IdentifierCookie::decode("0000000000000ABC:1234:", 1234), expected);
}

#[test]
fn cookie_is_expired_before_its_time_of_writing() {
    assert_eq!(IdentifierCookie::decode("0000000000000ABC:5000", 4_999), Err(Error::Expired));
    assert_eq!(IdentifierCookie::decode("0000000000000ABC:5000", 0), Err(Error::Expired));
    assert!(is_expired(5_000, 4_999));
    assert!(!is_expired(5_000, 5_000));
    assert!(!is_expired(5_000, 14_999));
    assert!(is_expired(5_000, 15_000));
    assert!(is_expired(u64::MAX, 0));
    assert!(!is_expired(u64::MAX, u64::MAX));
    assert!(is_expired(0, u64::MAX));
}

#[test]
fn cookie_written_now_is_read_now() {
    let id = Identifier(0x0123_4567_89ab_cdef);
    let value = IdentifierCookie(id).to_string().expect("the clock tells the time");
    assert!(value.starts_with("0123456789ABCDEF:"));
    assert_eq!(IdentifierCookie::from_str(&value), Ok(IdentifierCookie(id)));
}

#[test]
fn cookie_written_long_ago_is_expired_now() {
    assert_eq!(IdentifierCookie::from_str("0000000000000ABC:1234"), Err(Error::Expired));
    assert_eq!(IdentifierCookie::from_str("0000000000000ABC"), Err(Error::Format));
    assert_eq!(IdentifierCookie::from_str("0000000000000ABC:now"), Err(Error::Timestamp));
}

#[test]
fn cookie_is_written_for_what_the_clock_told() {
    let cookie = IdentifierCookie(Identifier(255));
    assert_eq!(cookie.encode_at(Some(1234)), Some(String::from("00000000000000FF:1234")));
    assert_eq!(cookie.encode_at(Some(0)), Some(String::from("00000000000000FF:0")));
    assert_eq!(cookie.encode_at(None), None);
}

#[test]
fn cookie_is_read_for_what_the_clock_told() {
    let good = "0000000000000ABC:5000";
    let read = Ok(IdentifierCookie(Identifier(0xabc)));
    assert_eq!(IdentifierCookie::decode_at(good, Some(5_000)), read);
    assert_eq!(IdentifierCookie::decode_at(good, Some(14_999)), read);
    assert_eq!(IdentifierCookie::decode_at(good, Some(15_000)), Err(Error::Expired));
    assert_eq!(IdentifierCookie::decode_at(good, None), Err(Error::Expired));
    assert_eq!(IdentifierCookie::decode_at("0000000000000ABC", None), Err(Error::Format));
    assert_eq!(IdentifierCookie::decode_at("xyz:5000", None), Err(Error::Format));
    let unread = "0000000000000ABC:soon";
    assert_eq!(IdentifierCookie::decode_at(unread, None), Err(Error::Timestamp));
    assert_eq!(IdentifierCookie::decode_at(unread, Some(1)), Err(Error::Timestamp));
}
