//! The key-value service as the store counts on it, and what holds of the
//! store when the service behaves so.
//!
//! The service is a map from keys to values. It answers every command:
//! a question with what the map holds, a write by adding to the map. That
//! records expire is left out: what is stated here holds until they do.

use super::existence;
use super::plan;
use super::read_key;
use super::record::law_record_round_trip;
use super::record::record;
use super::room_key;
use super::room_read;
use super::room_write;
use super::CommandView;
use super::Error;
use super::PutView;
use super::ReplyView;
use crate::messages::has_room;
use crate::messages::lemma_place_at;
use crate::messages::origin;
use crate::messages::place_at;
use crate::messages::room_of;
use crate::messages::xid::id_text;
use crate::messages::xid::law_identifier_text_differs;
use crate::messages::xid::Identifier;
use crate::messages::Place;
use crate::messages::RoomView;
use crate::text::lemma_hex_digits;
use vstd::prelude::*;
use vstd::utf8::encode_utf8;

verus! {

/// What the service holds after it has served `command`.
pub open spec fn kept(contents: Map<Seq<char>, Seq<u8>>, command: CommandView) -> Map<
    Seq<char>,
    Seq<u8>,
> {
    match command {
        CommandView::SetEx { key, value, .. } => contents.insert(key, value),
        _ => contents,
    }
}

/// The reply of the service to `command`.
pub open spec fn answer(contents: Map<Seq<char>, Seq<u8>>, command: CommandView) -> ReplyView {
    match command {
        CommandView::Exists { key } => ReplyView::Exists(contents.contains_key(key)),
        CommandView::Get { key } => ReplyView::Get(
            if contents.contains_key(key) {
                Some(contents[key])
            } else {
                None
            },
        ),
        CommandView::SetEx { .. } => ReplyView::SetEx,
    }
}

/// The commands of `put` that are still to be answered.
pub open spec fn remaining(put: PutView) -> nat {
    if put.pending() is Some {
        (put.plan.len() - put.next) as nat
    } else {
        0
    }
}

/// The storing `put` and the service after every pending command was sent
/// and answered.
pub open spec fn put_through(put: PutView, contents: Map<Seq<char>, Seq<u8>>) -> (
    PutView,
    Map<Seq<char>, Seq<u8>>,
)
    decreases remaining(put),
{
    match put.pending() {
        None => (put, contents),
        Some(command) => put_through(
            put.advanced(answer(contents, command)),
            kept(contents, command),
        ),
    }
}

/// The storing of the message `name` with the rooms `places` at its start.
pub open spec fn start(name: Seq<char>, places: Seq<Place>, seconds: u64) -> PutView {
    PutView { plan: plan(name, places, seconds), next: 0, failed: None }
}

/// Whether the record of every room of `places` can be written: the number
/// of its neighbours and the length of its colour fit in 64 bits.
pub open spec fn recordable(places: Seq<Place>) -> bool {
    forall|i: int|
        0 <= i < places.len() ==> (#[trigger] room_of(places, i)).see.len() <= u64::MAX
            && encode_utf8(room_of(places, i).col).len() <= u64::MAX
}

/// What the service holds after the writes `commands[from..]`.
pub open spec fn written(
    commands: Seq<CommandView>,
    contents: Map<Seq<char>, Seq<u8>>,
    from: int,
) -> Map<Seq<char>, Seq<u8>>
    decreases commands.len() - from,
{
    if from >= commands.len() || from < 0 {
        contents
    } else {
        written(commands, kept(contents, commands[from]), from + 1)
    }
}

/// Whether `command` is a write.
pub open spec fn is_write(command: CommandView) -> bool {
    command is SetEx
}

/// Whether `command` writes `value` under `key`.
pub open spec fn writes(command: CommandView, key: Seq<char>, value: Seq<u8>) -> bool {
    command matches CommandView::SetEx { key: k, value: v, .. } && k == key && v == value
}

/// Whether `command` is a write under `key`.
pub open spec fn writes_key(command: CommandView, key: Seq<char>) -> bool {
    command matches CommandView::SetEx { key: k, .. } && k == key
}

/// Writes that are all answered take a storing to its good end.
proof fn lemma_put_through_writes(put: PutView, contents: Map<Seq<char>, Seq<u8>>)
    requires
        put.failed is None,
        put.next <= put.plan.len(),
        forall|j: int| put.next <= j < put.plan.len() ==> is_write(#[trigger] put.plan[j]),
    ensures
        put_through(put, contents) == (
            PutView { next: put.plan.len(), ..put },
            written(put.plan, contents, put.next as int),
        ),
    decreases put.plan.len() - put.next,
{
    if put.next < put.plan.len() {
        let command = put.plan[put.next as int];
        assert(is_write(command));
        let after = put.advanced(answer(contents, command));
        assert(after == PutView { next: put.next + 1, ..put });
        lemma_put_through_writes(after, kept(contents, command));
    }
}

/// After a run of writes the service holds every key that it held before.
/// Under a key that one of them wrote it holds what the last of these
/// wrote; under any other key it holds what it held.
proof fn lemma_written(
    commands: Seq<CommandView>,
    contents: Map<Seq<char>, Seq<u8>>,
    from: int,
    key: Seq<char>,
)
    requires
        0 <= from <= commands.len(),
        forall|j: int| from <= j < commands.len() ==> is_write(#[trigger] commands[j]),
    ensures
        contents.contains_key(key) ==> written(commands, contents, from).contains_key(key),
        (exists|j: int| from <= j < commands.len() && writes_key(#[trigger] commands[j], key))
            ==> written(commands, contents, from).contains_key(key) && exists|j: int|
            from <= j < commands.len() && writes(
                #[trigger] commands[j],
                key,
                written(commands, contents, from)[key],
            ),
        !(exists|j: int| from <= j < commands.len() && writes_key(#[trigger] commands[j], key))
            && contents.contains_key(key) ==> written(commands, contents, from)[key]
            == contents[key],
    decreases commands.len() - from,
{
    if from < commands.len() {
        let first = commands[from];
        assert(is_write(first));
        let next = kept(contents, first);
        lemma_written(commands, next, from + 1, key);
        let end = written(commands, contents, from);
        if exists|j: int| from <= j < commands.len() && writes_key(#[trigger] commands[j], key) {
            if exists|j: int|
                from + 1 <= j < commands.len() && writes_key(#[trigger] commands[j], key) {
                let j = choose|j: int|
                    from + 1 <= j < commands.len() && writes(#[trigger] commands[j], key, end[key]);
                assert(from <= j < commands.len() && writes(commands[j], key, end[key]));
            } else {
                let j = choose|j: int|
                    from <= j < commands.len() && writes_key(#[trigger] commands[j], key);
                assert(j == from);
                assert(next.contains_key(key));
                assert(writes(commands[from], key, end[key]));
            }
        }
    }
}

/// The key of a room is not the name of its message, and two rooms of one
/// message have the same key only if they carry the same identifier.
pub proof fn law_keys_differ(name: Seq<char>, a: Identifier, b: Identifier)
    ensures
        room_key(name, a) != name,
        room_key(name, a) == room_key(name, b) ==> a == b,
{
    lemma_hex_digits(a.0 as nat, 16);
    lemma_hex_digits(b.0 as nat, 16);
    assert(room_key(name, a).len() == name.len() + 17);
    if room_key(name, a) == room_key(name, b) {
        assert forall|i: int| 0 <= i < 16 implies id_text(a)[i] == id_text(b)[i] by {
            assert(room_key(name, a)[name.len() + 1 + i] == id_text(a)[i]);
            assert(room_key(name, b)[name.len() + 1 + i] == id_text(b)[i]);
        }
        assert(id_text(a) =~= id_text(b));
        law_identifier_text_differs(a, b);
    }
}

/// Storing a message whose name is present fails with `Exists`, and the
/// service holds what it held: nothing was written.
pub proof fn law_put_rejects_present_name(
    name: Seq<char>,
    places: Seq<Place>,
    seconds: u64,
    contents: Map<Seq<char>, Seq<u8>>,
)
    requires
        contents.contains_key(name),
    ensures
        put_through(start(name, places, seconds), contents).0.outcome() == Some(
            Err::<(), Error>(Error::Exists),
        ),
        put_through(start(name, places, seconds), contents).1 == contents,
{
    let put = start(name, places, seconds);
    let command = put.plan[0];
    assert(put.pending() == Some(command));
    let after = put.advanced(answer(contents, command));
    assert(after.failed == Some(Error::Exists));
    assert(after.pending() is None);
    assert(put_through(after, kept(contents, command)) == (after, contents));
}

/// Storing a message whose name is absent succeeds. Afterwards the name is
/// present; the entry room is read under the name; and under the key of
/// every room of the message a room of the message that carries the same
/// identifier is read, each as it was written.
pub proof fn law_put_then_read(
    name: Seq<char>,
    places: Seq<Place>,
    seconds: u64,
    contents: Map<Seq<char>, Seq<u8>>,
    i: int,
)
    requires
        has_room(places, origin()),
        recordable(places),
        !contents.contains_key(name),
        0 <= i < places.len(),
    ensures
        ({
            let (put, after) = put_through(start(name, places, seconds), contents);
            let entry = CommandView::Get { key: read_key(name, None) };
            let room = CommandView::Get { key: read_key(name, Some(places[i].cell.id)) };
            &&& put.outcome() == Some(Ok::<(), Error>(()))
            &&& existence(answer(after, CommandView::Exists { key: name })) == Ok::<bool, Error>(
                true,
            )
            &&& room_read(answer(after, entry)) == Ok::<Option<RoomView>, Error>(
                Some(room_of(places, place_at(places, origin(), 0))),
            )
            &&& exists|j: int|
                0 <= j < places.len() && places[j].cell.id == places[i].cell.id && room_read(
                    answer(after, room),
                ) == Ok::<Option<RoomView>, Error>(Some(#[trigger] room_of(places, j)))
        }),
{
    let put = start(name, places, seconds);
    let all = put.plan;
    let first = all[0];
    assert(put.pending() == Some(first));
    let asked = put.advanced(answer(contents, first));
    assert(asked == PutView { next: 1, ..put });
    assert forall|j: int| 1 <= j < all.len() implies is_write(#[trigger] all[j]) by {
        if j >= 2 {
            assert(all[j] == room_write(name, places, seconds, j - 2));
        }
    }
    lemma_put_through_writes(asked, contents);
    let after = written(all, contents, 1);
    assert(put_through(put, contents) == (PutView { next: all.len(), ..asked }, after));
    let e = place_at(places, origin(), 0);
    lemma_place_at(places, origin(), 0);
    // The name is written once, by the second command.
    lemma_written(all, contents, 1, name);
    assert(writes_key(all[1], name));
    let j = choose|j: int| 1 <= j < all.len() && writes(#[trigger] all[j], name, after[name]);
    if j >= 2 {
        assert(all[j] == room_write(name, places, seconds, j - 2));
        law_keys_differ(name, places[j - 2].cell.id, places[j - 2].cell.id);
    }
    assert(after[name] == record(room_of(places, e)));
    assert(room_of(places, e).see.len() <= u64::MAX);
    law_record_round_trip(room_of(places, e));
    // The key of a room is written by the commands of the rooms alone.
    let id = places[i].cell.id;
    let key = room_key(name, id);
    lemma_written(all, contents, 1, key);
    assert(all[2 + i] == room_write(name, places, seconds, i));
    assert(writes_key(all[2 + i], key));
    let k = choose|k: int| 1 <= k < all.len() && writes(#[trigger] all[k], key, after[key]);
    law_keys_differ(name, id, id);
    assert(k >= 2);
    assert(all[k] == room_write(name, places, seconds, k - 2));
    law_keys_differ(name, places[k - 2].cell.id, id);
    assert(room_of(places, k - 2).see.len() <= u64::MAX);
    law_record_round_trip(room_of(places, k - 2));
    assert(places[k - 2].cell.id == id && room_read(
        answer(after, CommandView::Get { key }),
    ) == Ok::<Option<RoomView>, Error>(Some(room_of(places, k - 2))));
}

/// Whether no two of `places` carry the same identifier.
pub open spec fn distinct_ids(places: Seq<Place>) -> bool {
    forall|i: int, j: int|
        0 <= i < j < places.len() ==> (#[trigger] places[i]).cell.id != (
        #[trigger] places[j]).cell.id
}

/// Where no two rooms of a message carry the same identifier, the room that
/// is read under the key of a room, after the message was stored, is that
/// very room.
pub proof fn law_put_then_read_the_room(
    name: Seq<char>,
    places: Seq<Place>,
    seconds: u64,
    contents: Map<Seq<char>, Seq<u8>>,
    i: int,
)
    requires
        has_room(places, origin()),
        recordable(places),
        distinct_ids(places),
        !contents.contains_key(name),
        0 <= i < places.len(),
    ensures
        room_read(
            answer(
                put_through(start(name, places, seconds), contents).1,
                CommandView::Get { key: room_key(name, places[i].cell.id) },
            ),
        ) == Ok::<Option<RoomView>, Error>(Some(room_of(places, i))),
{
    law_put_then_read(name, places, seconds, contents, i);
    let after = put_through(start(name, places, seconds), contents).1;
    let room = CommandView::Get { key: read_key(name, Some(places[i].cell.id)) };
    let j = choose|j: int|
        0 <= j < places.len() && places[j].cell.id == places[i].cell.id && room_read(
            answer(after, room),
        ) == Ok::<Option<RoomView>, Error>(Some(#[trigger] room_of(places, j)));
    if j < i {
        assert(places[j].cell.id != places[i].cell.id);
    } else if i < j {
        assert(places[i].cell.id != places[j].cell.id);
    }
}

} // verus!
