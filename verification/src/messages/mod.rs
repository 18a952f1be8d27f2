//! Messages, their rooms and the cache that holds them.
//!
//! A message is a named graph of rooms. Each room lies at a position of a
//! matrix, carries an identifier and a colour and lists the positions that
//! can be reached from it in one step.

pub mod create;
pub mod graph;
pub mod index;
pub mod read;
pub mod update;
pub mod xid;

use self::graph::connected;
use self::graph::is_connected;
use self::graph::is_symmetric;
use self::graph::linked;
use self::graph::symmetric;
use self::index::id_indexed;
use self::index::index_ids;
use self::index::index_positions;
use self::index::indexed;
use self::index::locate;
use self::index::locate_id;
use self::xid::decoded;
use self::xid::decoded_at;
use self::xid::Identifier;
use self::xid::IdentifierCookie;
use crate::clock::now_millis;
use crate::store::Command;
use crate::store::CommandView;
use std::collections::HashMap;
use std::collections::VecDeque;
use vstd::prelude::*;

verus! {

/// The maximum number of cached messages.
pub const MAX_MESSAGES: usize = 64;

/// The name of the room identifier cookie.
pub const XID_COOKIE: &'static str = "xid";

/// A position in the matrix of rooms.
#[derive(Clone, Copy, Debug, PartialEq, Eq, Structural)]
pub struct Pos {
    /// The column.
    pub col: isize,
    /// The row.
    pub row: isize,
}

/// A physical position. Each coordinate is held as the bits of a
/// single-precision number.
#[derive(Clone, Copy, Debug, PartialEq, Eq, Structural)]
pub struct Point {
    /// The bits of the horizontal coordinate.
    pub x: u32,
    /// The bits of the vertical coordinate.
    pub y: u32,
}

/// Information for a single room.
#[derive(Clone, Debug, PartialEq, Eq)]
pub struct Cell {
    /// The room colour.
    pub color: String,
    /// The room ID.
    pub id: Identifier,
}

/// A room as it lies in the graph of a message.
#[derive(Clone, Debug, PartialEq, Eq)]
pub struct Place {
    /// The position of the room in the matrix.
    pub pos: Pos,
    /// The position of the centre of the room.
    pub center: Point,
    /// The data of the room.
    pub cell: Cell,
    /// The positions that one step from this room leads to. A position
    /// that holds no room may be among them.
    pub neighbors: Vec<Pos>,
}

/// A room description.
#[derive(Clone, Debug, PartialEq, Eq)]
pub struct Room {
    /// The room identifier.
    pub xid: Identifier,
    /// The position of the centre of the room.
    pub pos: Point,
    /// The colour of the room.
    pub col: String,
    /// The identifiers of the room neighbours.
    pub see: Vec<Identifier>,
}

/// What a room description holds.
pub struct RoomView {
    /// The room identifier.
    pub xid: Identifier,
    /// The position of the centre of the room.
    pub pos: Point,
    /// The colour of the room.
    pub col: Seq<char>,
    /// The identifiers of the room neighbours.
    pub see: Seq<Identifier>,
}

impl View for Room {
    type V = RoomView;

    open spec fn view(&self) -> RoomView {
        RoomView { xid: self.xid, pos: self.pos, col: self.col@, see: self.see@ }
    }
}

/// A cached message.
#[derive(Debug)]
pub struct Message {
    /// The name of this message.
    name: String,
    /// The rooms of this message, in the order of their positions.
    places: Vec<Place>,
    /// Where the room at each position lies among the rooms.
    index: HashMap<u128, usize>,
    /// Where the first room that carries each identifier lies among the
    /// rooms.
    ids: HashMap<u64, usize>,
}

/// The position of the entry room.
pub open spec fn origin() -> Pos {
    Pos { col: 0, row: 0 }
}

/// The index of the first of `places[from..]` that lies at `pos`, or the
/// number of places where none does.
pub open spec fn place_at(places: Seq<Place>, pos: Pos, from: int) -> int
    decreases places.len() - from,
{
    if from >= places.len() {
        places.len() as int
    } else if places[from].pos == pos {
        from
    } else {
        place_at(places, pos, from + 1)
    }
}

/// The index of the first of `places[from..]` whose room carries `id`, or
/// the number of places where none does.
pub open spec fn place_of(places: Seq<Place>, id: Identifier, from: int) -> int
    decreases places.len() - from,
{
    if from >= places.len() {
        places.len() as int
    } else if places[from].cell.id == id {
        from
    } else {
        place_of(places, id, from + 1)
    }
}

/// Whether a room lies at `pos`.
pub open spec fn has_room(places: Seq<Place>, pos: Pos) -> bool {
    place_at(places, pos, 0) < places.len()
}

/// The identifiers of the rooms at those of the positions `steps` that hold
/// a room, in the order of `steps`.
pub open spec fn seen(places: Seq<Place>, steps: Seq<Pos>) -> Seq<Identifier>
    decreases steps.len(),
{
    if steps.len() == 0 {
        Seq::empty()
    } else if has_room(places, steps.last()) {
        seen(places, steps.drop_last()).push(
            places[place_at(places, steps.last(), 0)].cell.id,
        )
    } else {
        seen(places, steps.drop_last())
    }
}

/// The description of the room `places[i]`.
pub open spec fn room_of(places: Seq<Place>, i: int) -> RoomView
    recommends
        0 <= i < places.len(),
{
    RoomView {
        xid: places[i].cell.id,
        pos: places[i].center,
        col: places[i].cell.color@,
        see: seen(places, places[i].neighbors@),
    }
}

/// The description of the room at `pos`, if one lies there.
pub open spec fn described(places: Seq<Place>, pos: Pos) -> Option<RoomView> {
    if has_room(places, pos) {
        Some(room_of(places, place_at(places, pos, 0)))
    } else {
        None
    }
}

/// The first of the positions `steps[from..]` that holds a room which
/// carries `id`, if there is one.
pub open spec fn step_to(places: Seq<Place>, steps: Seq<Pos>, id: Identifier, from: int) -> Option<
    Pos,
>
    decreases steps.len() - from,
{
    if from >= steps.len() || from < 0 {
        None
    } else if has_room(places, steps[from]) && places[place_at(places, steps[from], 0)].cell.id
        == id {
        Some(steps[from])
    } else {
        step_to(places, steps, id, from + 1)
    }
}

/// The position that the step from `from` to the room `id` leads to, if
/// that room is a neighbour of the room at `from`.
pub open spec fn moved(places: Seq<Place>, from: Pos, id: Identifier) -> Option<Pos> {
    if has_room(places, from) {
        step_to(places, places[place_at(places, from, 0)].neighbors@, id, 0)
    } else {
        None
    }
}

/// Whether no two of `places` lie at the same position.
pub open spec fn distinct_positions(places: Seq<Place>) -> bool {
    forall|i: int, j: int|
        0 <= i < j < places.len() ==> (#[trigger] places[i]).pos != (#[trigger] places[j]).pos
}

/// Whether `places` can be the rooms of a message: each position holds one
/// room at most, a room lies at the origin, every step between two rooms
/// can be taken back, and every room can be reached from the entry room.
pub open spec fn valid_places(places: Seq<Place>) -> bool {
    &&& distinct_positions(places)
    &&& has_room(places, origin())
    &&& symmetric(places)
    &&& connected(places)
}

/// Where `place_at` stops, the position is found or the places have run
/// out; before that it is not found.
pub proof fn lemma_place_at(places: Seq<Place>, pos: Pos, from: int)
    requires
        0 <= from <= places.len(),
    ensures
        from <= place_at(places, pos, from) <= places.len(),
        place_at(places, pos, from) < places.len() ==> places[place_at(places, pos, from)].pos
            == pos,
        forall|i: int|
            from <= i < place_at(places, pos, from) ==> (#[trigger] places[i]).pos != pos,
    decreases places.len() - from,
{
    if from < places.len() && places[from].pos != pos {
        lemma_place_at(places, pos, from + 1);
    }
}

/// Where `place_of` stops, the identifier is found or the places have run
/// out; before that it is not found.
pub proof fn lemma_place_of(places: Seq<Place>, id: Identifier, from: int)
    requires
        0 <= from <= places.len(),
    ensures
        from <= place_of(places, id, from) <= places.len(),
        place_of(places, id, from) < places.len() ==> places[place_of(places, id, from)].cell.id
            == id,
        forall|i: int|
            from <= i < place_of(places, id, from) ==> (#[trigger] places[i]).cell.id != id,
    decreases places.len() - from,
{
    if from < places.len() && places[from].cell.id != id {
        lemma_place_of(places, id, from + 1);
    }
}

impl Room {
    /// Whether the room `target` is a neighbour of this room.
    pub fn sees(&self, target: Identifier) -> (r: bool)
        ensures
            r == self@.see.contains(target),
    {
        let mut i: usize = 0;
        while i < self.see.len()
            invariant
                i <= self.see.len(),
                forall|j: int| 0 <= j < i ==> self.see@[j] != target,
            decreases self.see.len() - i,
        {
            if self.see[i] == target {
                return true;
            }
            i = i + 1;
        }
        false
    }
}

impl Message {
    /// The condition that every message meets.
    #[verifier::type_invariant]
    pub closed spec fn wf(self) -> bool {
        &&& valid_places(self.places@)
        &&& indexed(self.places@, self.index@)
        &&& id_indexed(self.places@, self.ids@)
    }

    /// The name of this message, as a value of contracts.
    pub closed spec fn spec_name(self) -> Seq<char> {
        self.name@
    }

    /// The rooms of this message, as a value of contracts.
    pub closed spec fn spec_places(self) -> Seq<Place> {
        self.places@
    }

    /// Every message has valid places.
    pub proof fn lemma_valid(self)
        requires
            self.wf(),
        ensures
            valid_places(self.spec_places()),
    {
    }

    /// Constructs a message from its name and its rooms.
    ///
    /// Returns nothing where two rooms lie at the same position, no room
    /// lies at the origin, a step between two rooms cannot be taken back,
    /// or a room cannot be reached from the entry room.
    pub fn new(name: &str, places: Vec<Place>) -> (r: Option<Message>)
        ensures
            r is Some <==> valid_places(places@),
            r matches Some(m) ==> m.wf() && m.spec_name() == name@ && m.spec_places() == places@,
    {
        let index = match index_positions(&places) {
            Some(index) => index,
            None => {
                return None;
            },
        };
        let entry = locate(&places, &index, Pos { col: 0, row: 0 });
        if entry >= places.len() {
            return None;
        }
        if !is_symmetric(&places, &index) || !is_connected(&places, &index, entry) {
            return None;
        }
        let ids = index_ids(&places);
        Some(Message { name: name.to_owned(), places, index, ids })
    }

    /// The name of this message.
    pub fn name(&self) -> (r: &str)
        ensures
            r@ == self.spec_name(),
    {
        self.name.as_str()
    }

    /// Returns the identifier of the entry room.
    pub fn entry(&self) -> (r: Identifier)
        ensures
            has_room(self.spec_places(), origin()),
            r == self.spec_places()[place_at(self.spec_places(), origin(), 0)].cell.id,
    {
        proof {
            use_type_invariant(self);
        }
        let i = locate(&self.places, &self.index, Pos { col: 0, row: 0 });
        self.places[i].cell.id
    }

    /// Finds a room position by identifier: that of the first room, in
    /// the order of the rooms, that carries `id`.
    pub fn lookup(&self, id: Identifier) -> (r: Option<Pos>)
        ensures
            r == if place_of(self.spec_places(), id, 0) < self.spec_places().len() {
                Some(self.spec_places()[place_of(self.spec_places(), id, 0)].pos)
            } else {
                None
            },
    {
        proof {
            use_type_invariant(self);
        }
        let i = locate_id(&self.places, &self.ids, id);
        if i < self.places.len() {
            Some(self.places[i].pos)
        } else {
            None
        }
    }

    /// Generates a description of the room at `pos`, if one lies there.
    pub fn describe(&self, pos: Pos) -> (r: Option<Room>)
        ensures
            r is Some <==> has_room(self.spec_places(), pos),
            r matches Some(room) ==> Some(room@) == described(self.spec_places(), pos),
    {
        proof {
            use_type_invariant(self);
        }
        let i = locate(&self.places, &self.index, pos);
        if i < self.places.len() {
            Some(describe_place(&self.places, &self.index, i))
        } else {
            None
        }
    }

    /// The descriptions of all rooms, in the order of the rooms.
    pub fn rooms(&self) -> (r: Vec<Room>)
        ensures
            r@.len() == self.spec_places().len(),
            forall|i: int|
                0 <= i < r@.len() ==> (#[trigger] r@[i])@ == room_of(self.spec_places(), i),
    {
        proof {
            use_type_invariant(self);
        }
        let mut r: Vec<Room> = Vec::new();
        let mut i: usize = 0;
        while i < self.places.len()
            invariant
                i <= self.places.len(),
                indexed(self.places@, self.index@),
                r@.len() == i,
                forall|j: int| 0 <= j < i ==> (#[trigger] r@[j])@ == room_of(self.places@, j),
            decreases self.places.len() - i,
        {
            r.push(describe_place(&self.places, &self.index, i));
            i = i + 1;
        }
        r
    }

    /// Attempts to move from a room to a reachable neighbour with the
    /// identifier specified.
    pub fn transition(&self, from: Pos, to: Identifier) -> (r: Option<Pos>)
        ensures
            r == moved(self.spec_places(), from, to),
    {
        proof {
            use_type_invariant(self);
        }
        let i = locate(&self.places, &self.index, from);
        if i >= self.places.len() {
            return None;
        }
        let steps = &self.places[i].neighbors;
        let mut k: usize = 0;
        while k < steps.len()
            invariant
                k <= steps.len(),
                indexed(self.places@, self.index@),
                i == place_at(self.places@, from, 0),
                i < self.places.len(),
                steps@ == self.places@[i as int].neighbors@,
                step_to(self.places@, steps@, to, 0) == step_to(self.places@, steps@, to, k as int),
            decreases steps.len() - k,
        {
            let j = locate(&self.places, &self.index, steps[k]);
            if j < self.places.len() && self.places[j].cell.id == to {
                return Some(steps[k]);
            }
            k = k + 1;
        }
        None
    }
}

/// Describes the room `places[i]`.
fn describe_place(places: &Vec<Place>, index: &HashMap<u128, usize>, i: usize) -> (r: Room)
    requires
        i < places.len(),
        indexed(places@, index@),
    ensures
        r@ == room_of(places@, i as int),
{
    let place = &places[i];
    let steps = &place.neighbors;
    let mut see: Vec<Identifier> = Vec::new();
    let mut k: usize = 0;
    while k < steps.len()
        invariant
            k <= steps.len(),
            indexed(places@, index@),
            see@ == seen(places@, steps@.take(k as int)),
        decreases steps.len() - k,
    {
        proof {
            assert(steps@.take(k + 1).drop_last() =~= steps@.take(k as int));
        }
        let j = locate(places, index, steps[k]);
        if j < places.len() {
            see.push(places[j].cell.id);
        }
        k = k + 1;
    }
    proof {
        assert(steps@.take(k as int) =~= steps@);
    }
    Room { xid: place.cell.id, pos: place.center, col: place.cell.color.clone(), see }
}

/// Whether a room that carries `id` lies at `pos`.
pub open spec fn leads_to(places: Seq<Place>, pos: Pos, id: Identifier) -> bool {
    has_room(places, pos) && places[place_at(places, pos, 0)].cell.id == id
}

/// A step can be made to the rooms that the description of a room lists,
/// and to no others; the room that it leads to carries the identifier asked
/// for.
pub proof fn law_transition_follows_neighbours(places: Seq<Place>, from: Pos, to: Identifier)
    requires
        has_room(places, from),
    ensures
        moved(places, from, to) is Some <==> described(places, from).unwrap().see.contains(to),
        moved(places, from, to) matches Some(pos) ==> described(places, pos) matches Some(room)
            && room.xid == to,
{
    let steps = places[place_at(places, from, 0)].neighbors@;
    lemma_step_to(places, steps, to, 0);
    lemma_seen(places, steps, to);
}

/// Every step can be taken back: where a step leads from a room to
/// another, a step leads from the other to a room that carries the
/// identifier of the first.
pub proof fn law_step_can_be_taken_back(places: Seq<Place>, from: Pos, to: Identifier)
    requires
        valid_places(places),
        moved(places, from, to) is Some,
    ensures
        moved(
            places,
            moved(places, from, to).unwrap(),
            places[place_at(places, from, 0)].cell.id,
        ) is Some,
{
    let a = place_at(places, from, 0);
    let there = moved(places, from, to).unwrap();
    let b = place_at(places, there, 0);
    lemma_step_to(places, places[a].neighbors@, to, 0);
    lemma_place_at(places, from, 0);
    lemma_place_at(places, there, 0);
    assert(linked(places, a, b));
    let back = places[b].neighbors@;
    let k = choose|k: int| 0 <= k < back.len() && back[k] == places[a].pos;
    assert(leads_to(places, back[k], places[a].cell.id));
    lemma_step_to(places, back, places[a].cell.id, 0);
}

/// What `step_to` finds is one of the steps and holds a room that carries
/// the identifier, and it finds one wherever one of the steps leads to such
/// a room.
proof fn lemma_step_to(places: Seq<Place>, steps: Seq<Pos>, id: Identifier, from: int)
    requires
        0 <= from <= steps.len(),
    ensures
        step_to(places, steps, id, from) matches Some(pos) ==> leads_to(places, pos, id)
            && steps.contains(pos),
        step_to(places, steps, id, from) is Some <==> exists|k: int|
            from <= k < steps.len() && leads_to(places, #[trigger] steps[k], id),
    decreases steps.len() - from,
{
    if from < steps.len() {
        lemma_step_to(places, steps, id, from + 1);
        if leads_to(places, steps[from], id) {
        } else if exists|k: int|
            from <= k < steps.len() && leads_to(places, #[trigger] steps[k], id) {
            let k = choose|k: int|
                from <= k < steps.len() && leads_to(places, #[trigger] steps[k], id);
            assert(from + 1 <= k);
        }
    }
}

/// The identifiers seen from a room are those of the rooms that lie at its
/// neighbouring positions.
pub proof fn lemma_seen(places: Seq<Place>, steps: Seq<Pos>, id: Identifier)
    ensures
        seen(places, steps).contains(id) <==> exists|k: int|
            0 <= k < steps.len() && leads_to(places, #[trigger] steps[k], id),
    decreases steps.len(),
{
    if steps.len() > 0 {
        let head = steps.drop_last();
        let all = seen(places, steps);
        lemma_seen(places, head, id);
        if all.contains(id) {
            let n = choose|n: int| 0 <= n < all.len() && all[n] == id;
            if has_room(places, steps.last()) && n == seen(places, head).len() {
                assert(leads_to(places, steps[steps.len() - 1], id));
            } else {
                assert(seen(places, head)[n] == id);
                let k = choose|k: int|
                    0 <= k < head.len() && leads_to(places, #[trigger] head[k], id);
                assert(steps[k] == head[k]);
            }
        }
        if exists|k: int| 0 <= k < steps.len() && leads_to(places, #[trigger] steps[k], id) {
            let k = choose|k: int|
                0 <= k < steps.len() && leads_to(places, #[trigger] steps[k], id);
            if k == steps.len() - 1 {
                assert(all.last() == id);
            } else {
                assert(head[k] == steps[k]);
                let n = choose|n: int|
                    0 <= n < seen(places, head).len() && seen(places, head)[n] == id;
                assert(all[n] == id);
            }
        }
    }
}

/// The room cache type: the messages that were stored last, the oldest
/// first.
#[derive(Debug)]
pub struct Cache {
    /// The cached messages, in the order in which they were stored.
    messages: VecDeque<Message>,
}

/// Whether one of `messages` has the name `name`.
pub open spec fn holds_name(messages: Seq<Message>, name: Seq<char>) -> bool {
    exists|i: int| 0 <= i < messages.len() && (#[trigger] messages[i]).spec_name() == name
}

/// Whether no two of `messages` have the same name.
pub open spec fn distinct_names(messages: Seq<Message>) -> bool {
    forall|i: int, j: int|
        0 <= i < j < messages.len() ==> (#[trigger] messages[i]).spec_name() != (
        #[trigger] messages[j]).spec_name()
}

/// The messages of a cache after an attempt to store `message`.
///
/// A message whose name is present is not stored. Before any other message
/// is appended, the oldest message leaves a cache that is full.
pub open spec fn stored(messages: Seq<Message>, message: Message) -> Seq<Message> {
    if holds_name(messages, message.spec_name()) {
        messages
    } else if messages.len() >= MAX_MESSAGES {
        messages.skip(1).push(message)
    } else {
        messages.push(message)
    }
}

/// The index of the first of `messages[from..]` that has the name `name`,
/// or the number of messages where none has.
pub open spec fn named_at(messages: Seq<Message>, name: Seq<char>, from: int) -> int
    decreases messages.len() - from,
{
    if from >= messages.len() {
        messages.len() as int
    } else if messages[from].spec_name() == name {
        from
    } else {
        named_at(messages, name, from + 1)
    }
}

impl View for Cache {
    type V = Seq<Message>;

    closed spec fn view(&self) -> Seq<Message> {
        self.messages@
    }
}

impl Cache {
    /// The condition that a cache meets at all times: it holds no more
    /// messages than it may, and no two of the same name.
    pub open spec fn wf(&self) -> bool {
        self@.len() <= MAX_MESSAGES && distinct_names(self@)
    }

    /// Creates a new cache.
    pub fn new() -> (r: Self)
        ensures
            r@ == Seq::<Message>::empty(),
            r.wf(),
    {
        Cache { messages: VecDeque::new() }
    }

    /// Grants access to cached messages.
    pub fn read(&self) -> (r: &VecDeque<Message>)
        ensures
            r@ == self@,
    {
        &self.messages
    }

    /// Finds the cached message of a name: the first, in the order in
    /// which the messages were stored, that has it.
    pub fn find(&self, name: &str) -> (r: Option<&Message>)
        ensures
            match r {
                Some(message) => named_at(self@, name@, 0) < self@.len() && *message
                    == self@[named_at(self@, name@, 0)],
                None => named_at(self@, name@, 0) >= self@.len(),
            },
    {
        let wanted = name.to_owned();
        let mut i: usize = 0;
        while i < self.messages.len()
            invariant
                i <= self.messages.len(),
                wanted@ == name@,
                named_at(self.messages@, name@, 0) == named_at(self.messages@, name@, i as int),
            decreases self.messages.len() - i,
        {
            if self.messages[i].name == wanted {
                return Some(&self.messages[i]);
            }
            i = i + 1;
        }
        None
    }

    /// Attempts to cache a message.
    ///
    /// If a message with the same name already exists, this function will
    /// return the message wrapped in an error, and the cache stays as it
    /// is. Otherwise the message is appended, after the oldest message has
    /// left a cache that is full, and its name is returned.
    pub fn store(&mut self, message: Message) -> (r: Result<String, Message>)
        ensures
            final(self)@ == stored(old(self)@, message),
            old(self).wf() ==> final(self).wf(),
            match r {
                Ok(name) => name@ == message.spec_name() && !holds_name(
                    old(self)@,
                    message.spec_name(),
                ),
                Err(rejected) => rejected == message && holds_name(
                    old(self)@,
                    message.spec_name(),
                ),
            },
    {
        let mut i: usize = 0;
        while i < self.messages.len()
            invariant
                i <= self.messages.len(),
                self.messages@ == old(self).messages@,
                forall|j: int|
                    0 <= j < i ==> (#[trigger] self.messages@[j]).spec_name()
                        != message.spec_name(),
            decreases self.messages.len() - i,
        {
            if self.messages[i].name == message.name {
                return Err(message);
            }
            i = i + 1;
        }
        if self.messages.len() >= MAX_MESSAGES {
            self.messages.pop_front();
            assert(self.messages@ =~= old(self).messages@.skip(1));
        }
        let result = message.name.clone();
        self.messages.push_back(message);
        proof {
            law_store_keeps_order(old(self)@, message);
        }
        Ok(result)
    }
}

/// A cache that holds no more messages than it may, and no two of the same
/// name, is such a cache after any attempt to store a message.
pub proof fn law_store_keeps_order(messages: Seq<Message>, message: Message)
    ensures
        messages.len() <= MAX_MESSAGES ==> stored(messages, message).len() <= MAX_MESSAGES,
        distinct_names(messages) ==> distinct_names(stored(messages, message)),
{
    let after = stored(messages, message);
    if distinct_names(messages) && !holds_name(messages, message.spec_name()) {
        let kept = if messages.len() >= MAX_MESSAGES {
            messages.skip(1)
        } else {
            messages
        };
        let shift: int = if messages.len() >= MAX_MESSAGES {
            1
        } else {
            0
        };
        assert forall|i: int, j: int| 0 <= i < j < after.len() implies (#[trigger] after[i]).spec_name()
            != (#[trigger] after[j]).spec_name() by {
            assert(after[i] == messages[i + shift]);
            if j < kept.len() {
                assert(after[j] == messages[j + shift]);
            } else {
                assert(after[j] == message);
            }
        }
    }
}

/// A message whose name is present is not stored: the cache stays as it
/// is, and holds the name once.
pub proof fn law_store_rejects_known_name(messages: Seq<Message>, message: Message)
    requires
        holds_name(messages, message.spec_name()),
    ensures
        stored(messages, message) == messages,
{
}

/// A message with a new name, stored in a full cache, takes the place of
/// the message that was stored first: that one leaves, all others stay in
/// their order, and the cache is full as before.
pub proof fn law_store_evicts_oldest(messages: Seq<Message>, message: Message)
    requires
        messages.len() == MAX_MESSAGES,
        distinct_names(messages),
        !holds_name(messages, message.spec_name()),
    ensures
        stored(messages, message).len() == MAX_MESSAGES,
        !holds_name(stored(messages, message), messages[0].spec_name()),
        forall|i: int|
            1 <= i < messages.len() ==> stored(messages, message)[i - 1] == #[trigger] messages[i],
        stored(messages, message).last() == message,
{
    let after = stored(messages, message);
    assert forall|k: int| 0 <= k < after.len() implies (#[trigger] after[k]).spec_name()
        != messages[0].spec_name() by {
        if k < after.len() - 1 {
            assert(after[k] == messages[k + 1]);
        } else {
            assert(after[k] == message);
        }
    }
}

/// A message with a new name, stored in a cache that is not full, is
/// appended and nothing leaves.
pub proof fn law_store_appends(messages: Seq<Message>, message: Message)
    requires
        messages.len() < MAX_MESSAGES,
        !holds_name(messages, message.spec_name()),
    ensures
        stored(messages, message) == messages.push(message),
{
}

/// `std::sync::PoisonError`, the error of a lock whose holder panicked.
#[verifier::external_type_specification]
#[verifier::external_body]
#[verifier::reject_recursive_types(T)]
pub struct ExPoisonError<T>(std::sync::PoisonError<T>);

/// What a request in progress needs next from the one who runs it.
#[derive(Clone, Debug, PartialEq, Eq)]
pub enum Action {
    /// Send the command to the key-value service and hand back its reply.
    Send(Command),
    /// Load the identifier cookie from the session and hand back what was
    /// found.
    LoadId,
    /// Store the identifier in the session and hand back how that went.
    StoreId(Identifier),
    /// Remove the identifier cookie from the session.
    ClearId,
    /// Generate the message and hand it back, or say that it could not be
    /// generated.
    Generate,
    /// Nothing: the request has come to its end.
    Finish,
}

/// What an action holds.
pub enum ActionView {
    /// Send the command to the key-value service and hand back its reply.
    Send(CommandView),
    /// Load the identifier cookie from the session and hand back what was
    /// found.
    LoadId,
    /// Store the identifier in the session and hand back how that went.
    StoreId(Identifier),
    /// Remove the identifier cookie from the session.
    ClearId,
    /// Generate the message and hand it back, or say that it could not be
    /// generated.
    Generate,
    /// Nothing: the request has come to its end.
    Finish,
}

impl View for Action {
    type V = ActionView;

    open spec fn view(&self) -> ActionView {
        match self {
            Action::Send(command) => ActionView::Send(command@),
            Action::LoadId => ActionView::LoadId,
            Action::StoreId(id) => ActionView::StoreId(*id),
            Action::ClearId => ActionView::ClearId,
            Action::Generate => ActionView::Generate,
            Action::Finish => ActionView::Finish,
        }
    }
}

/// What the session holds, where a cookie that is absent counts as an
/// error: the identifier that was read, the error that reading gave, or
/// the missing error.
pub open spec fn required(loaded: Option<Result<Identifier, xid::Error>>) -> Result<
    Identifier,
    xid::Error,
> {
    match loaded {
        None => Err(xid::Error::Missing),
        Some(read) => read,
    }
}

/// Takes what the session holds, and counts a cookie that is absent as an
/// error.
pub fn require(loaded: Option<Result<Identifier, xid::Error>>) -> (r: Result<
    Identifier,
    xid::Error,
>)
    ensures
        r == required(loaded),
{
    match loaded {
        None => Err(xid::Error::Missing),
        Some(read) => read,
    }
}

/// The identifier that a request goes by, given what the session holds:
/// the identifier of a cookie that was read, none where the cookie is
/// missing or expired, and the error of a cookie that is malformed.
pub open spec fn current_id(loaded: Option<Result<Identifier, xid::Error>>) -> Result<
    Option<Identifier>,
    xid::Error,
> {
    match required(loaded) {
        Ok(id) => Ok(Some(id)),
        Err(xid::Error::Expired) => Ok(None),
        Err(xid::Error::Missing) => Ok(None),
        Err(e) => Err(e),
    }
}

/// Decides which identifier a request goes by, given what the session
/// holds.
pub fn current(loaded: Option<Result<Identifier, xid::Error>>) -> (r: Result<
    Option<Identifier>,
    xid::Error,
>)
    ensures
        r == current_id(loaded),
{
    match require(loaded) {
        Ok(id) => Ok(Some(id)),
        Err(xid::Error::Expired) => Ok(None),
        Err(xid::Error::Missing) => Ok(None),
        Err(e) => Err(e),
    }
}

/// What the cookie value that a session holds means at the time `now`:
/// nothing where there is none, else the identifier that is read from it or
/// the reason why none is.
pub open spec fn identified(stored: Option<Seq<char>>, now: u64) -> Option<
    Result<Identifier, xid::Error>,
> {
    match stored {
        None => None,
        Some(value) => Some(
            match decoded(value, now) {
                Ok(cookie) => Ok(cookie.0),
                Err(e) => Err(e),
            },
        ),
    }
}

/// Reads the identifier from the cookie value that a session holds, at the
/// time `now` in milliseconds since the epoch.
pub fn identify(stored: Option<&str>, now: u64) -> (r: Option<Result<Identifier, xid::Error>>)
    ensures
        r == identified(
            match stored {
                Some(value) => Some(value@),
                None => None,
            },
            now,
        ),
{
    match stored {
        None => None,
        Some(value) => Some(
            match IdentifierCookie::decode(value, now) {
                Ok(cookie) => Ok(cookie.0),
                Err(e) => Err(e),
            },
        ),
    }
}

/// What loading the identifier gives, for what the session held under the
/// name of the cookie and what the clock told.
///
/// A session that could not be read gives the format error. A session
/// without a cookie gives nothing. A cookie gives the identifier that is
/// read from it, or the reason why none is.
pub open spec fn loaded(held: Result<Option<Seq<char>>, ()>, now: Option<u64>) -> Option<
    Result<Identifier, xid::Error>,
> {
    match held {
        Err(_) => Some(Err(xid::Error::Format)),
        Ok(None) => None,
        Ok(Some(value)) => Some(
            match decoded_at(value, now) {
                Ok(cookie) => Ok(cookie.0),
                Err(e) => Err(e),
            },
        ),
    }
}

/// What the session held under the name of the cookie, as a value of
/// contracts.
pub open spec fn held_view(held: Result<Option<&str>, ()>) -> Result<Option<Seq<char>>, ()> {
    match held {
        Err(_) => Err(()),
        Ok(None) => Ok(None),
        Ok(Some(value)) => Ok(Some(value@)),
    }
}

/// Decides what loading the identifier gives, from what the session held
/// under the name of the cookie and what the clock told.
pub fn load(held: Result<Option<&str>, ()>, now: Option<u64>) -> (r: Option<
    Result<Identifier, xid::Error>,
>)
    ensures
        r == loaded(held_view(held), now),
{
    match held {
        Err(_) => Some(Err(xid::Error::Format)),
        Ok(None) => None,
        Ok(Some(value)) => Some(
            match IdentifierCookie::decode_at(value, now) {
                Ok(cookie) => Ok(cookie.0),
                Err(e) => Err(e),
            },
        ),
    }
}

/// What storing the identifier `id` gives, for what came of handing its
/// cookie to the session: the timestamp error where no cookie could be
/// written because the clock told no time, the identifier where the session
/// took the cookie, and the format error where it did not.
pub open spec fn id_stored(id: Identifier, inserted: Option<Result<(), ()>>) -> Result<
    Identifier,
    xid::Error,
> {
    match inserted {
        None => Err(xid::Error::Timestamp),
        Some(Ok(_)) => Ok(id),
        Some(Err(_)) => Err(xid::Error::Format),
    }
}

/// Decides what storing the identifier `id` gives, from what came of
/// handing its cookie to the session.
pub fn conclude_store(id: Identifier, inserted: Option<Result<(), ()>>) -> (r: Result<
    Identifier,
    xid::Error,
>)
    ensures
        r == id_stored(id, inserted),
{
    match inserted {
        None => Err(xid::Error::Timestamp),
        Some(Ok(_)) => Ok(id),
        Some(Err(_)) => Err(xid::Error::Format),
    }
}

/// What asserting that the session holds an identifier gives, for what
/// loading gave: the identifier of a cookie that is present and valid, and
/// nothing where a default is to be generated and stored, which is so where
/// the cookie is absent or not valid.
pub open spec fn asserted_id(loaded: Option<Result<Identifier, xid::Error>>) -> Option<
    Result<Identifier, xid::Error>,
> {
    match loaded {
        Some(Ok(id)) => Some(Ok(id)),
        _ => None,
    }
}

/// Decides what asserting that the session holds an identifier gives, from
/// what loading gave: the result where a cookie is present and valid, and
/// nothing where a default is to be generated and stored.
pub fn asserted(loaded: Option<Result<Identifier, xid::Error>>) -> (r: Option<
    Result<Identifier, xid::Error>,
>)
    ensures
        r == asserted_id(loaded),
{
    match loaded {
        Some(Ok(id)) => Some(Ok(id)),
        _ => None,
    }
}

/// Loads the identifier from what the session held under the name of the
/// cookie, at the present time.
///
/// Returns nothing where the session held no cookie, the format error
/// where what it held could not be read as a string, and else what reading
/// the cookie at the present time gives. A cookie that is absent is never
/// reported as missing.
///
/// The result is what `load` gives for what the clock tells. Nothing is
/// known of the clock; what does not rest on it is fixed.
///
/// # Arguments
/// *  `held` - What the session held under the name of the cookie: the
///    value, nothing, or an error where it could not be read as a string.
pub fn load_id(held: Result<Option<&str>, ()>) -> (r: Option<Result<Identifier, xid::Error>>)
    ensures
        exists|now: Option<u64>| r == loaded(held_view(held), now),
{
    let now = now_millis();
    load(held, now)
}

} // verus!
