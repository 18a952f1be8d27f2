use actix_session::Session;
use actix_session::SessionExt;
use actix_web::test::TestRequest;
use backend::clock::narrow;
use backend::configuration::Configuration;
use backend::configuration::SessionSettings;
use backend::messages::asserted;
use backend::messages::conclude_store;
use backend::messages::load;
use backend::messages::load_id;
use backend::messages::xid::Error;
use backend::messages::xid::Identifier;
use backend::messages::xid::IdentifierCookie;
use backend::messages::XID_COOKIE;

fn session() -> Session {
    TestRequest::default().to_http_request().get_session()
}

/// Loads the identifier from a session, as a server does.
fn load_from(session: &Session) -> Option<Result<Identifier, Error>> {
    let held = session.get::<String>(XID_COOKIE).map_err(|_| ());
    load_id(held.as_ref().map(|value| value.as_deref()).map_err(|_| ()))
}

/// Stores the identifier in a session, as a server does.
fn store_in(session: &Session, id: Identifier) -> Result<Identifier, Error> {
    let inserted = IdentifierCookie::from(id)
        .to_string()
        .map(|value| session.insert(XID_COOKIE, value).map_err(|_| ()));
    conclude_store(id, inserted)
}

/// Asserts that a session holds an identifier, as a server does.
fn assert_in(session: &Session, default: Identifier) -> Result<Identifier, Error> {
    match asserted(load_from(session)) {
        Some(result) => result,
        None => store_in(session, default),
    }
}

#[test]
fn session_without_a_cookie_has_no_identifier() {
    assert_eq!(XID_COOKIE, "xid");
    assert_eq!(load_from(&session()), None);
    assert_eq!(load_id(Ok(None)), None);
}

#[test]
fn session_that_cannot_be_read_gives_the_format_error() {
    assert_eq!(load_id(Err(())), Some(Err(Error::Format)));
    let session = session();
    session.insert("xid", 17).expect("the value is kept");
    assert_eq!(load_from(&session), Some(Err(Error::Format)));
}

#[test]
fn session_keeps_the_identifier_that_was_stored() {
    let session = session();
    assert_eq!(store_in(&session, Identifier(0xabc)), Ok(Identifier(0xabc)));
    assert_eq!(load_from(&session), Some(Ok(Identifier(0xabc))));
    let value = session.get::<String>("xid").expect("a string").expect("a value");
    assert!(value.starts_with("0000000000000ABC:"));
    assert_eq!(store_in(&session, Identifier(0xdef)), Ok(Identifier(0xdef)));
    assert_eq!(load_from(&session), Some(Ok(Identifier(0xdef))));
}

#[test]
fn cookie_of_the_present_time_is_loaded() {
    let value = IdentifierCookie(Identifier(0x77)).to_string().expect("the clock tells the time");
    assert_eq!(load_id(Ok(Some(&value))), Some(Ok(Identifier(0x77))));
}

#[test]
fn session_cookie_is_read_as_it_was_written() {
    let old = IdentifierCookie(Identifier(1)).encode(1_000);
    assert_eq!(load_id(Ok(Some(&old))), Some(Err(Error::Expired)));
    assert_eq!(load_id(Ok(Some("nonsense"))), Some(Err(Error::Format)));
    assert_eq!(load_id(Ok(Some("0000000000000001:soon"))), Some(Err(Error::Timestamp)));
    let session = session();
    session.insert("xid", old).expect("the value is kept");
    assert_eq!(load_from(&session), Some(Err(Error::Expired)));
    session.insert("xid", "nonsense").expect("the value is kept");
    assert_eq!(load_from(&session), Some(Err(Error::Format)));
}

#[test]
fn session_forgets_the_identifier_that_was_removed() {
    let session = session();
    assert_eq!(store_in(&session, Identifier(5)), Ok(Identifier(5)));
    session.remove(XID_COOKIE);
    assert_eq!(load_from(&session), None);
}

#[test]
fn asserted_keeps_a_valid_identifier() {
    assert_eq!(asserted(Some(Ok(Identifier(7)))), Some(Ok(Identifier(7))));
    assert_eq!(asserted(Some(Ok(Identifier(0)))), Some(Ok(Identifier(0))));
    let session = session();
    assert_eq!(store_in(&session, Identifier(5)), Ok(Identifier(5)));
    assert_eq!(assert_in(&session, Identifier(9)), Ok(Identifier(5)));
    assert_eq!(load_from(&session), Some(Ok(Identifier(5))));
}

#[test]
fn asserted_asks_for_the_default_otherwise() {
    assert_eq!(asserted(None), None);
    assert_eq!(asserted(Some(Err(Error::Expired))), None);
    assert_eq!(asserted(Some(Err(Error::Format))), None);
    assert_eq!(asserted(Some(Err(Error::Timestamp))), None);
    assert_eq!(asserted(Some(Err(Error::Missing))), None);
    let session = session();
    assert_eq!(assert_in(&session, Identifier(9)), Ok(Identifier(9)));
    assert_eq!(load_from(&session), Some(Ok(Identifier(9))));
    let old = IdentifierCookie(Identifier(1)).encode(1_000);
    session.insert("xid", old).expect("the value is kept");
    assert_eq!(assert_in(&session, Identifier(7)), Ok(Identifier(7)));
    assert_eq!(load_from(&session), Some(Ok(Identifier(7))));
    session.insert("xid", "nonsense").expect("the value is kept");
    assert_eq!(assert_in(&session, Identifier(8)), Ok(Identifier(8)));
    assert_eq!(load_from(&session), Some(Ok(Identifier(8))));
}

#[test]
fn load_decides_for_what_the_session_held() {
    assert_eq!(load(Ok(None), Some(1_000)), None);
    assert_eq!(load(Ok(None), None), None);
    assert_eq!(load(Err(()), Some(1_000)), Some(Err(Error::Format)));
    assert_eq!(load(Err(()), None), Some(Err(Error::Format)));
    let held = "0000000000000ABC:1000";
    assert_eq!(load(Ok(Some(held)), Some(1_000)), Some(Ok(Identifier(0xabc))));
    assert_eq!(load(Ok(Some(held)), Some(10_999)), Some(Ok(Identifier(0xabc))));
    assert_eq!(load(Ok(Some(held)), Some(11_000)), Some(Err(Error::Expired)));
    assert_eq!(load(Ok(Some(held)), Some(999)), Some(Err(Error::Expired)));
    assert_eq!(load(Ok(Some(held)), None), Some(Err(Error::Expired)));
    assert_eq!(load(Ok(Some("nonsense")), Some(1_000)), Some(Err(Error::Format)));
    assert_eq!(load(Ok(Some("nonsense")), None), Some(Err(Error::Format)));
    assert_eq!(load(Ok(Some("0000000000000ABC:x")), None), Some(Err(Error::Timestamp)));
}

#[test]
fn conclude_store_decides_for_what_the_session_did() {
    assert_eq!(conclude_store(Identifier(7), Some(Ok(()))), Ok(Identifier(7)));
    assert_eq!(conclude_store(Identifier(7), Some(Err(()))), Err(Error::Format));
    assert_eq!(conclude_store(Identifier(7), None), Err(Error::Timestamp));
}

#[test]
fn narrow_takes_milliseconds_that_fit() {
    assert_eq!(narrow(0), Some(0));
    assert_eq!(narrow(1_700_000_000_000), Some(1_700_000_000_000));
    assert_eq!(narrow(u64::MAX as u128), Some(u64::MAX));
    assert_eq!(narrow(u64::MAX as u128 + 1), None);
    assert_eq!(narrow(u128::MAX), None);
}

#[test]
fn configuration_keeps_its_settings() {
    let settings = SessionSettings {
        secret: String::from("secret"),
        secure: true,
        name: String::from("session"),
    };
    let configuration = Configuration::new(
        String::from("127.0.0.1:8080"),
        settings,
        String::from("redis://localhost/1"),
        3_600_999,
    );
    assert_eq!(configuration.server_bind(), "127.0.0.1:8080");
    let session = configuration.session();
    assert_eq!(session.secret, "secret");
    assert!(session.secure);
    assert_eq!(session.name, "session");
    let store = configuration.store();
    assert_eq!(store.connection_info(), "redis://localhost/1");
    assert_eq!(store.seconds(), 3_600);
    assert_eq!(store.ttl(), 3_600_999);
}
