use backend::messages::xid::Identifier;
use backend::messages::Cell;
use backend::messages::Message;
use backend::messages::Place;
use backend::messages::Point;
use backend::messages::Pos;
use backend::messages::Room;
use backend::store::error::Kind;
use backend::store::record::decode;
use backend::store::record::encode;
use backend::store::Command;
use backend::store::Error;
use backend::store::Put;
use backend::store::Reply;
use backend::store::Store;
use backend::store::KEY_SEPARATOR;
use std::collections::HashMap;

fn pos(col: isize, row: isize) -> Pos {
    Pos { col, row }
}

fn place(at: Pos, id: u64, color: &str, neighbors: Vec<Pos>) -> Place {
    Place {
        pos: at,
        center: Point { x: 0x3f80_0000, y: 0x4000_0000 },
        cell: Cell { color: color.to_owned(), id: Identifier(id) },
        neighbors,
    }
}

fn line() -> Message {
    Message::new(
        "line",
        vec![
            place(pos(0, 0), 0xa, "#0A0A0A", vec![pos(1, 0)]),
            place(pos(1, 0), 0xb, "#0B0B0B", vec![pos(0, 0), pos(2, 0)]),
            place(pos(2, 0), 0xc, "#0C0C0C", vec![pos(1, 0)]),
        ],
    )
    .expect("the places are valid")
}

fn store() -> Store {
    Store::new(String::from("redis://localhost"), 90_500)
}

/// A key-value service that keeps what it is told.
struct Service {
    contents: HashMap<String, Vec<u8>>,
    writes: usize,
}

fn service() -> Service {
    Service { contents: HashMap::new(), writes: 0 }
}

fn serve(service: &mut Service, command: &Command) -> Reply {
    match command {
        Command::Exists { key } => Reply::Exists(service.contents.contains_key(key)),
        Command::Get { key } => Reply::Get(service.contents.get(key).cloned()),
        Command::SetEx { key, value, .. } => {
            service.writes += 1;
            service.contents.insert(key.clone(), value.clone());
            Reply::SetEx
        }
    }
}

fn run(put: &mut Put, service: &mut Service) -> Result<(), Error> {
    loop {
        let command = match put.command() {
            Some(command) => command.clone(),
            None => break,
        };
        let reply = serve(service, &command);
        put.advance(&reply);
    }
    put.outcome().expect("the storing has ended")
}

fn sample() -> Room {
    Room {
        xid: Identifier(0x0102_0304_0506_0708),
        pos: Point { x: 0x3f80_0000, y: 0xc000_0000 },
        col: String::from("#é"),
        see: vec![Identifier(1), Identifier(u64::MAX)],
    }
}

#[test]
fn record_is_written_byte_by_byte() {
    let expected: Vec<u8> = vec![
        1, 2, 3, 4, 5, 6, 7, 8, // the identifier
        0x3f, 0x80, 0, 0, // the horizontal coordinate
        0xc0, 0, 0, 0, // the vertical coordinate
        0, 0, 0, 0, 0, 0, 0, 3, // the bytes of the colour
        b'#', 0xc3, 0xa9, // the colour
        0, 0, 0, 0, 0, 0, 0, 2, // the number of neighbours
        0, 0, 0, 0, 0, 0, 0, 1, // the first neighbour
        255, 255, 255, 255, 255, 255, 255, 255, // the second neighbour
    ];
    assert_eq!(encode(&sample()), expected);
}

#[test]
fn record_is_read_back_unchanged() {
    let room = sample();
    assert_eq!(decode(&encode(&room)), Some(room));
    let bare = Room {
        xid: Identifier(0),
        pos: Point { x: 0, y: 0 },
        col: String::new(),
        see: vec![],
    };
    assert_eq!(encode(&bare).len(), 32);
    assert_eq!(decode(&encode(&bare)), Some(bare));
}

#[test]
fn record_keeps_a_long_colour_and_many_neighbours() {
    let room = Room {
        xid: Identifier(77),
        pos: Point { x: 1, y: 2 },
        col: "colour ".repeat(100),
        see: (0..300).map(Identifier).collect(),
    };
    assert_eq!(decode(&encode(&room)), Some(room));
}

#[test]
fn bytes_that_are_no_record_are_not_read() {
    let good = encode(&sample());
    assert_eq!(decode(&vec![]), None);
    assert_eq!(decode(&vec![0; 23]), None);
    assert_eq!(decode(&good[..good.len() - 1].to_vec()), None);
    let mut long = good.clone();
    long.push(0);
    assert_eq!(decode(&long), None);
    let mut text = good.clone();
    text[25] = 0xff;
    assert_eq!(decode(&text), None);
    let mut length = good.clone();
    length[16] = 0xff;
    assert_eq!(decode(&length), None);
    let mut count = good.clone();
    count[27] = 0xff;
    assert_eq!(decode(&count), None);
    let mut fewer = good.clone();
    fewer[34] = 1;
    assert_eq!(decode(&fewer), None);
}

#[test]
fn key_is_name_dot_identifier() {
    assert_eq!(KEY_SEPARATOR, '.');
    assert_eq!(store().key("hello", Identifier(0xabc)), "hello.0000000000000ABC");
    assert_eq!(store().key("", Identifier(u64::MAX)), ".FFFFFFFFFFFFFFFF");
}

#[test]
fn store_keeps_its_settings() {
    let store = store();
    assert_eq!(store.connection_info(), "redis://localhost");
    assert_eq!(store.seconds(), 90);
    assert_eq!(Store::new(String::new(), 999).seconds(), 0);
    assert_eq!(Store::new(String::new(), 1_000).seconds(), 1);
}

#[test]
fn get_asks_for_the_name_or_the_key_of_the_room() {
    assert_eq!(store().get("hello", None), Command::Get { key: String::from("hello") });
    assert_eq!(
        store().get("hello", Some(Identifier(0xabc))),
        Command::Get { key: String::from("hello.0000000000000ABC") }
    );
}

#[test]
fn get_reply_gives_the_room_of_the_record() {
    let room = sample();
    assert_eq!(Store::get_reply(&Reply::Get(Some(encode(&room)))), Ok(Some(room)));
    assert_eq!(Store::get_reply(&Reply::Get(None)), Ok(None));
}

#[test]
fn get_reply_reports_errors() {
    assert_eq!(Store::get_reply(&Reply::Get(Some(vec![1, 2, 3]))), Err(Error::ReadError));
    assert_eq!(Store::get_reply(&Reply::Failed), Err(Error::Connection));
    assert_eq!(Store::get_reply(&Reply::Exists(true)), Err(Error::InternalError));
    assert_eq!(Store::get_reply(&Reply::SetEx), Err(Error::InternalError));
}

#[test]
fn contains_asks_whether_the_name_is_present() {
    assert_eq!(store().contains("hello"), Command::Exists { key: String::from("hello") });
    assert_eq!(Store::contains_reply(&Reply::Exists(true)), Ok(true));
    assert_eq!(Store::contains_reply(&Reply::Exists(false)), Ok(false));
    assert_eq!(Store::contains_reply(&Reply::Failed), Err(Error::Connection));
    assert_eq!(Store::contains_reply(&Reply::Get(None)), Err(Error::InternalError));
    assert_eq!(Store::contains_reply(&Reply::SetEx), Err(Error::InternalError));
}

#[test]
fn command_is_copied_whole() {
    let command = Command::SetEx { key: String::from("k"), value: vec![1, 2, 3], seconds: 9 };
    assert_eq!(command.duplicate(), command);
    let command = Command::Get { key: String::from("k") };
    assert_eq!(command.duplicate(), command);
    let command = Command::Exists { key: String::from("k") };
    assert_eq!(command.duplicate(), command);
}

#[test]
fn put_message_asks_first_then_writes_entry_and_rooms() {
    let message = line();
    let mut put = store().put_message(&message);
    let mut sent: Vec<Command> = Vec::new();
    while let Some(command) = put.command() {
        sent.push(command.clone());
        let reply = match command {
            Command::Exists { .. } => Reply::Exists(false),
            _ => Reply::SetEx,
        };
        assert_eq!(put.outcome(), None);
        put.advance(&reply);
    }
    assert_eq!(put.outcome(), Some(Ok(())));
    let rooms = message.rooms();
    let expected = vec![
        Command::Exists { key: String::from("line") },
        Command::SetEx { key: String::from("line"), value: encode(&rooms[0]), seconds: 90 },
        Command::SetEx {
            key: String::from("line.000000000000000A"),
            value: encode(&rooms[0]),
            seconds: 90,
        },
        Command::SetEx {
            key: String::from("line.000000000000000B"),
            value: encode(&rooms[1]),
            seconds: 90,
        },
        Command::SetEx {
            key: String::from("line.000000000000000C"),
            value: encode(&rooms[2]),
            seconds: 90,
        },
    ];
    assert_eq!(sent, expected);
}

#[test]
fn put_message_on_a_present_name_fails_and_writes_nothing() {
    let mut service = service();
    service.contents.insert(String::from("line"), vec![1, 2, 3]);
    let mut put = store().put_message(&line());
    assert_eq!(run(&mut put, &mut service), Err(Error::Exists));
    assert_eq!(service.writes, 0);
    assert_eq!(service.contents.len(), 1);
    assert_eq!(service.contents.get("line"), Some(&vec![1, 2, 3]));
    assert_eq!(put.command(), None);
}

#[test]
fn put_message_on_a_new_name_stores_every_room() {
    let mut service = service();
    let message = line();
    let store = store();
    let mut put = store.put_message(&message);
    assert_eq!(run(&mut put, &mut service), Ok(()));
    assert_eq!(service.writes, 4);
    let asked = serve(&mut service, &store.contains("line"));
    assert_eq!(Store::contains_reply(&asked), Ok(true));
    let entry = serve(&mut service, &store.get("line", None));
    assert_eq!(Store::get_reply(&entry), Ok(message.describe(pos(0, 0))));
    for room in message.rooms() {
        let reply = serve(&mut service, &store.get("line", Some(room.xid)));
        assert_eq!(Store::get_reply(&reply), Ok(Some(room)));
    }
    let absent = serve(&mut service, &store.get("line", Some(Identifier(0xd))));
    assert_eq!(Store::get_reply(&absent), Ok(None));
}

#[test]
fn put_message_twice_fails_the_second_time() {
    let mut service = service();
    let store = store();
    assert_eq!(run(&mut store.put_message(&line()), &mut service), Ok(()));
    assert_eq!(run(&mut store.put_message(&line()), &mut service), Err(Error::Exists));
    assert_eq!(service.writes, 4);
}

#[test]
fn put_message_reports_a_failed_question_as_connection_error() {
    let mut put = store().put_message(&line());
    put.advance(&Reply::Failed);
    assert_eq!(put.outcome(), Some(Err(Error::Connection)));
    assert_eq!(put.command(), None);
}

#[test]
fn put_message_reports_a_failed_write_and_stops() {
    let mut put = store().put_message(&line());
    put.advance(&Reply::Exists(false));
    put.advance(&Reply::SetEx);
    put.advance(&Reply::SetEx);
    assert_eq!(put.outcome(), None);
    put.advance(&Reply::Failed);
    assert_eq!(put.outcome(), Some(Err(Error::WriteError)));
    assert_eq!(put.command(), None);
    put.advance(&Reply::SetEx);
    assert_eq!(put.outcome(), Some(Err(Error::WriteError)));
}

#[test]
fn put_message_reports_a_reply_out_of_place_as_internal_error() {
    let mut put = store().put_message(&line());
    put.advance(&Reply::SetEx);
    assert_eq!(put.outcome(), Some(Err(Error::InternalError)));
    let mut put = store().put_message(&line());
    put.advance(&Reply::Exists(false));
    put.advance(&Reply::Exists(false));
    assert_eq!(put.outcome(), Some(Err(Error::InternalError)));
    let mut put = store().put_message(&line());
    put.advance(&Reply::Get(None));
    assert_eq!(put.outcome(), Some(Err(Error::InternalError)));
}

#[test]
fn put_message_ignores_replies_after_its_end() {
    let mut service = service();
    let mut put = store().put_message(&line());
    assert_eq!(run(&mut put, &mut service), Ok(()));
    put.advance(&Reply::Failed);
    assert_eq!(put.outcome(), Some(Ok(())));
}

#[test]
fn store_error_has_a_name_and_a_kind() {
    assert_eq!(Error::Connection.to_string(), "Connection");
    assert_eq!(Error::InternalError.to_string(), "InternalError");
    assert_eq!(Error::Exists.to_string(), "Exists");
    assert_eq!(Error::ReadError.to_string(), "ReadError");
    assert_eq!(Error::WriteError.to_string(), "WriteError");
    assert_eq!(Error::Connection.kind(), Kind::ConnectionRefused);
    assert_eq!(Error::InternalError.kind(), Kind::Other);
    assert_eq!(Error::Exists.kind(), Kind::Other);
    assert_eq!(Error::ReadError.kind(), Kind::Other);
    assert_eq!(Error::WriteError.kind(), Kind::Other);
}
