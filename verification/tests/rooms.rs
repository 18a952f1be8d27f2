use backend::messages::xid::Identifier;
use backend::messages::Cache;
use backend::messages::Cell;
use backend::messages::Message;
use backend::messages::Place;
use backend::messages::Point;
use backend::messages::Pos;
use backend::messages::Room;
use backend::messages::MAX_MESSAGES;

fn pos(col: isize, row: isize) -> Pos {
    Pos { col, row }
}

fn place(at: Pos, id: u64, neighbors: Vec<Pos>) -> Place {
    Place {
        pos: at,
        center: Point { x: (at.col as u32).wrapping_mul(10), y: (at.row as u32).wrapping_mul(10) },
        cell: Cell { color: format!("#{:06X}", id), id: Identifier(id) },
        neighbors,
    }
}

/// Three rooms in a row: A at the origin sees B, B sees A and C, C sees B.
/// A also borders a position that holds no room.
fn line() -> Message {
    let a = pos(0, 0);
    let b = pos(1, 0);
    let c = pos(2, 0);
    Message::new(
        "line",
        vec![
            place(a, 0xa, vec![pos(-1, 0), b]),
            place(b, 0xb, vec![a, c]),
            place(c, 0xc, vec![b]),
        ],
    )
    .expect("the places are valid")
}

fn small(name: &str) -> Message {
    Message::new(name, vec![place(pos(0, 0), 1, vec![])]).expect("the places are valid")
}

#[test]
fn message_needs_a_room_at_the_origin() {
    assert!(Message::new("m", vec![]).is_none());
    assert!(Message::new("m", vec![place(pos(1, 0), 1, vec![])]).is_none());
    assert!(Message::new("m", vec![place(pos(0, 0), 1, vec![])]).is_some());
}

#[test]
fn message_needs_distinct_positions() {
    let twice = vec![
        place(pos(0, 0), 1, vec![]),
        place(pos(1, 1), 2, vec![]),
        place(pos(1, 1), 3, vec![]),
    ];
    assert!(Message::new("m", twice).is_none());
}

#[test]
fn message_needs_steps_that_can_be_taken_back() {
    let one_way = vec![place(pos(0, 0), 1, vec![pos(1, 0)]), place(pos(1, 0), 2, vec![])];
    assert!(Message::new("m", one_way).is_none());
    let other_way = vec![place(pos(0, 0), 1, vec![]), place(pos(1, 0), 2, vec![pos(0, 0)])];
    assert!(Message::new("m", other_way).is_none());
    let both_ways =
        vec![place(pos(0, 0), 1, vec![pos(1, 0)]), place(pos(1, 0), 2, vec![pos(0, 0)])];
    assert!(Message::new("m", both_ways).is_some());
    let to_itself = vec![place(pos(0, 0), 1, vec![pos(0, 0), pos(0, 0)])];
    assert!(Message::new("m", to_itself).is_some());
}

#[test]
fn message_needs_rooms_that_can_be_reached() {
    let apart = vec![place(pos(0, 0), 1, vec![]), place(pos(1, 0), 2, vec![])];
    assert!(Message::new("m", apart).is_none());
    let island = vec![
        place(pos(0, 0), 1, vec![pos(1, 0)]),
        place(pos(1, 0), 2, vec![pos(0, 0)]),
        place(pos(5, 5), 3, vec![pos(6, 5)]),
        place(pos(6, 5), 4, vec![pos(5, 5)]),
    ];
    assert!(Message::new("m", island).is_none());
    let ring = vec![
        place(pos(1, 1), 4, vec![pos(0, 1), pos(1, 0)]),
        place(pos(1, 0), 2, vec![pos(0, 0), pos(1, 1)]),
        place(pos(0, 1), 3, vec![pos(1, 1), pos(0, 0)]),
        place(pos(0, 0), 1, vec![pos(1, 0), pos(0, 1)]),
    ];
    assert!(Message::new("m", ring).is_some());
    let chain: Vec<Place> = (0..200isize)
        .rev()
        .map(|i| place(pos(i, 0), i as u64, vec![pos(i - 1, 0), pos(i + 1, 0)]))
        .collect();
    assert!(Message::new("m", chain).is_some());
}

#[test]
fn steps_can_be_taken_back() {
    let message = line();
    for (from, id) in [(pos(0, 0), 0xau64), (pos(1, 0), 0xb), (pos(2, 0), 0xc)] {
        for target in [0xau64, 0xb, 0xc] {
            if let Some(there) = message.transition(from, Identifier(target)) {
                assert_eq!(message.transition(there, Identifier(id)), Some(from));
            }
        }
    }
}

#[test]
fn message_keeps_its_name() {
    assert_eq!(line().name(), "line");
}

#[test]
fn entry_is_the_room_at_the_origin() {
    assert_eq!(line().entry(), Identifier(0xa));
    let late = Message::new(
        "late",
        vec![place(pos(3, 3), 7, vec![pos(0, 0)]), place(pos(0, 0), 8, vec![pos(3, 3)])],
    )
    .expect("the places are valid");
    assert_eq!(late.entry(), Identifier(8));
}

#[test]
fn describe_projects_a_position_to_a_room() {
    let message = line();
    let b = message.describe(pos(1, 0)).expect("a room lies there");
    assert_eq!(b.xid, Identifier(0xb));
    assert_eq!(b.pos, Point { x: 10, y: 0 });
    assert_eq!(b.col, "#00000B");
    assert_eq!(b.see, vec![Identifier(0xa), Identifier(0xc)]);
}

#[test]
fn describe_leaves_out_neighbours_that_hold_no_room() {
    let a = line().describe(pos(0, 0)).expect("the entry room is there");
    assert_eq!(a.see, vec![Identifier(0xb)]);
}

#[test]
fn describe_gives_nothing_outside_the_graph() {
    assert!(line().describe(pos(-1, 0)).is_none());
    assert!(line().describe(pos(0, 1)).is_none());
}

#[test]
fn rooms_are_described_in_their_order() {
    let rooms = line().rooms();
    let ids: Vec<Identifier> = rooms.iter().map(|room| room.xid).collect();
    assert_eq!(ids, vec![Identifier(0xa), Identifier(0xb), Identifier(0xc)]);
    assert_eq!(rooms[2].see, vec![Identifier(0xb)]);
}

#[test]
fn lookup_finds_the_position_of_an_identifier() {
    let message = line();
    assert_eq!(message.lookup(Identifier(0xa)), Some(pos(0, 0)));
    assert_eq!(message.lookup(Identifier(0xc)), Some(pos(2, 0)));
    assert_eq!(message.lookup(Identifier(0xd)), None);
}

#[test]
fn lookup_finds_the_first_of_two_rooms_with_one_identifier() {
    let message = Message::new(
        "twins",
        vec![
            place(pos(0, 0), 1, vec![pos(1, 0)]),
            place(pos(1, 0), 2, vec![pos(0, 0), pos(2, 0)]),
            place(pos(2, 0), 2, vec![pos(1, 0)]),
        ],
    )
    .expect("the places are valid");
    assert_eq!(message.lookup(Identifier(2)), Some(pos(1, 0)));
}

#[test]
fn transition_to_a_neighbour_succeeds() {
    let message = line();
    assert_eq!(message.transition(pos(1, 0), Identifier(0xa)), Some(pos(0, 0)));
    assert_eq!(message.transition(pos(1, 0), Identifier(0xc)), Some(pos(2, 0)));
    assert_eq!(message.transition(pos(0, 0), Identifier(0xb)), Some(pos(1, 0)));
}

#[test]
fn transition_to_a_room_that_is_no_neighbour_fails() {
    let message = line();
    assert_eq!(message.transition(pos(0, 0), Identifier(0xc)), None);
    assert_eq!(message.transition(pos(0, 0), Identifier(0xa)), None);
    assert_eq!(message.transition(pos(1, 0), Identifier(0xdead)), None);
}

#[test]
fn transition_from_outside_the_graph_fails() {
    assert_eq!(line().transition(pos(5, 5), Identifier(0xa)), None);
}

#[test]
fn transition_agrees_with_the_description() {
    let message = line();
    for from in [pos(0, 0), pos(1, 0), pos(2, 0)] {
        let room = message.describe(from).expect("a room lies there");
        for id in [0xau64, 0xb, 0xc, 0xd] {
            let target = Identifier(id);
            assert_eq!(message.transition(from, target).is_some(), room.sees(target));
        }
    }
}

#[test]
fn room_sees_its_neighbours_only() {
    let room = Room {
        xid: Identifier(1),
        pos: Point { x: 0, y: 0 },
        col: String::from("#000000"),
        see: vec![Identifier(2), Identifier(3)],
    };
    assert!(room.sees(Identifier(2)));
    assert!(room.sees(Identifier(3)));
    assert!(!room.sees(Identifier(1)));
    assert!(!room.sees(Identifier(4)));
}

#[test]
fn cache_starts_empty() {
    assert_eq!(MAX_MESSAGES, 64);
    assert!(Cache::new().read().is_empty());
}

#[test]
fn cache_stores_a_new_name() {
    let mut cache = Cache::new();
    assert_eq!(cache.store(small("one")).ok(), Some(String::from("one")));
    assert_eq!(cache.read().len(), 1);
    assert_eq!(cache.read()[0].name(), "one");
}

#[test]
fn cache_returns_a_message_whose_name_is_present() {
    let mut cache = Cache::new();
    assert!(cache.store(small("one")).is_ok());
    assert!(cache.store(line()).is_ok());
    let again = Message::new("one", vec![place(pos(0, 0), 99, vec![])]).expect("valid");
    let rejected = cache.store(again).expect_err("the name is present");
    assert_eq!(rejected.name(), "one");
    assert_eq!(rejected.entry(), Identifier(99));
    assert_eq!(cache.read().len(), 2);
    assert_eq!(cache.read()[0].entry(), Identifier(1));
    assert_eq!(cache.read()[1].name(), "line");
}

#[test]
fn cache_evicts_the_oldest_message_when_full() {
    let mut cache = Cache::new();
    for i in 0..64 {
        assert_eq!(cache.store(small(&format!("m{}", i))).ok(), Some(format!("m{}", i)));
    }
    assert_eq!(cache.read().len(), 64);
    assert_eq!(cache.store(small("m64")).ok(), Some(String::from("m64")));
    assert_eq!(cache.read().len(), 64);
    let names: Vec<String> = cache.read().iter().map(|m| m.name().to_owned()).collect();
    let expected: Vec<String> = (1..65).map(|i| format!("m{}", i)).collect();
    assert_eq!(names, expected);
    // The name that left can be stored again, and the next oldest leaves.
    assert!(cache.store(small("m0")).is_ok());
    assert_eq!(cache.read().len(), 64);
    assert_eq!(cache.read()[0].name(), "m2");
    assert_eq!(cache.read()[63].name(), "m0");
}

#[test]
fn large_message_is_built_and_walked() {
    let side = 96isize;
    let mut places = Vec::new();
    for row in 0..side {
        for col in 0..side {
            let neighbors =
                vec![pos(col - 1, row), pos(col + 1, row), pos(col, row - 1), pos(col, row + 1)];
            places.push(place(pos(col, row), (row * side + col) as u64, neighbors));
        }
    }
    let message = Message::new("grid", places).expect("the places are valid");
    assert_eq!(message.entry(), Identifier(0));
    let rooms = message.rooms();
    assert_eq!(rooms.len(), (side * side) as usize);
    assert_eq!(rooms[0].see, vec![Identifier(1), Identifier(side as u64)]);
    let last = (side * side - 1) as u64;
    assert_eq!(message.lookup(Identifier(last)), Some(pos(side - 1, side - 1)));
    let mut at = pos(0, 0);
    for step in 1..side {
        at = message.transition(at, Identifier(step as u64)).expect("the step is legal");
    }
    assert_eq!(at, pos(side - 1, 0));
    assert_eq!(message.transition(at, Identifier(side as u64)), None);
}

#[test]
fn cache_finds_a_message_by_its_name() {
    let mut cache = Cache::new();
    assert!(cache.find("one").is_none());
    assert!(cache.store(small("one")).is_ok());
    assert!(cache.store(line()).is_ok());
    assert_eq!(cache.find("one").map(|message| message.entry()), Some(Identifier(1)));
    assert_eq!(cache.find("line").map(|message| message.name()), Some("line"));
    assert!(cache.find("two").is_none());
    assert!(cache.find("").is_none());
}
