//! The indexes of a message: where the room at a position lies among the
//! rooms, and where the first room lies that carries an identifier.

use super::distinct_positions;
use super::has_room;
use super::lemma_place_at;
use super::lemma_place_of;
use super::place_at;
use super::place_of;
use super::xid::Identifier;
use super::Place;
use super::Pos;
use std::collections::HashMap;
use vstd::prelude::*;
use vstd::std_specs::hash::group_hash_axioms;

verus! {

/// The key that stands for a position in the index of positions. Two
/// positions have two keys.
pub open spec fn pos_key(pos: Pos) -> u128 {
    ((pos.col + 0x8000_0000_0000_0000) * 0x1_0000_0000_0000_0000 + (pos.row
        + 0x8000_0000_0000_0000)) as u128
}

/// Whether `index` tells, for each position, where the room at that
/// position lies among `places`, and holds no position without a room.
pub open spec fn indexed(places: Seq<Place>, index: Map<u128, usize>) -> bool {
    forall|pos: Pos|
        index.contains_key(#[trigger] pos_key(pos)) == has_room(places, pos) && (has_room(
            places,
            pos,
        ) ==> index[pos_key(pos)] == place_at(places, pos, 0))
}

/// Whether `index` tells, for each identifier, where the first room that
/// carries it lies among `places`, and holds no identifier without a room.
pub open spec fn id_indexed(places: Seq<Place>, index: Map<u64, usize>) -> bool {
    forall|id: Identifier|
        index.contains_key(#[trigger] id.0) == (place_of(places, id, 0) < places.len()) && (
        place_of(places, id, 0) < places.len() ==> index[id.0] == place_of(places, id, 0))
}

/// Two positions with one key are one position.
pub proof fn lemma_pos_key(a: Pos, b: Pos)
    requires
        pos_key(a) == pos_key(b),
    ensures
        a == b,
{
    let ka = (a.col + 0x8000_0000_0000_0000) * 0x1_0000_0000_0000_0000 + (a.row
        + 0x8000_0000_0000_0000);
    let kb = (b.col + 0x8000_0000_0000_0000) * 0x1_0000_0000_0000_0000 + (b.row
        + 0x8000_0000_0000_0000);
    assert(0 <= ka < 0x1_0000_0000_0000_0000_0000_0000_0000_0000);
    assert(0 <= kb < 0x1_0000_0000_0000_0000_0000_0000_0000_0000);
    assert(ka == kb);
    assert(ka / 0x1_0000_0000_0000_0000 == a.col + 0x8000_0000_0000_0000);
    assert(kb / 0x1_0000_0000_0000_0000 == b.col + 0x8000_0000_0000_0000);
}

/// Where a room is looked for among rooms of which one more is known: it
/// lies where it lay, or it is the new room, or it is not found.
proof fn lemma_place_at_next(places: Seq<Place>, n: int, pos: Pos, from: int)
    requires
        0 <= from <= n < places.len(),
    ensures
        place_at(places.take(n + 1), pos, from) == if place_at(places.take(n), pos, from) < n {
            place_at(places.take(n), pos, from)
        } else if places[n].pos == pos {
            n
        } else {
            n + 1
        },
    decreases n - from,
{
    if from < n {
        assert(places.take(n)[from] == places[from]);
        assert(places.take(n + 1)[from] == places[from]);
        if places[from].pos != pos {
            lemma_place_at_next(places, n, pos, from + 1);
        }
    } else {
        assert(places.take(n + 1)[n] == places[n]);
        assert(place_at(places.take(n + 1), pos, n + 1) == n + 1);
        assert(place_at(places.take(n), pos, n) == n);
    }
}

/// Where the first room with an identifier is looked for among rooms of
/// which one more is known: it lies where it lay, or it is the new room, or
/// it is not found.
proof fn lemma_place_of_next(places: Seq<Place>, n: int, id: Identifier, from: int)
    requires
        0 <= from <= n < places.len(),
    ensures
        place_of(places.take(n + 1), id, from) == if place_of(places.take(n), id, from) < n {
            place_of(places.take(n), id, from)
        } else if places[n].cell.id == id {
            n
        } else {
            n + 1
        },
    decreases n - from,
{
    if from < n {
        assert(places.take(n)[from] == places[from]);
        assert(places.take(n + 1)[from] == places[from]);
        if places[from].cell.id != id {
            lemma_place_of_next(places, n, id, from + 1);
        }
    } else {
        assert(places.take(n + 1)[n] == places[n]);
        assert(place_of(places.take(n + 1), id, n + 1) == n + 1);
        assert(place_of(places.take(n), id, n) == n);
    }
}

/// The key that stands for a position in the index of positions.
fn key_of(pos: Pos) -> (r: u128)
    ensures
        r == pos_key(pos),
{
    let col = (pos.col as i128 + 0x8000_0000_0000_0000) as u128;
    let row = (pos.row as i128 + 0x8000_0000_0000_0000) as u128;
    col * 0x1_0000_0000_0000_0000 + row
}

/// Finds the first of `places` that lies at `pos`, with the help of the
/// index.
pub(super) fn locate(places: &Vec<Place>, index: &HashMap<u128, usize>, pos: Pos) -> (r: usize)
    requires
        indexed(places@, index@),
    ensures
        r == place_at(places@, pos, 0),
        r <= places.len(),
        r < places.len() ==> places@[r as int].pos == pos,
{
    broadcast use group_hash_axioms;

    proof {
        lemma_place_at(places@, pos, 0);
    }
    let key = key_of(pos);
    match index.get(&key) {
        Some(i) => *i,
        None => places.len(),
    }
}

/// Finds the first of `places` that carries `id`, with the help of the
/// index.
pub(super) fn locate_id(places: &Vec<Place>, index: &HashMap<u64, usize>, id: Identifier) -> (r:
    usize)
    requires
        id_indexed(places@, index@),
    ensures
        r == place_of(places@, id, 0),
        r <= places.len(),
{
    broadcast use group_hash_axioms;

    proof {
        lemma_place_of(places@, id, 0);
    }
    match index.get(&id.0) {
        Some(i) => *i,
        None => places.len(),
    }
}

/// Builds the index of positions. There is none where two rooms lie at the
/// same position.
pub(super) fn index_positions(places: &Vec<Place>) -> (r: Option<HashMap<u128, usize>>)
    ensures
        r is Some <==> distinct_positions(places@),
        r matches Some(index) ==> indexed(places@, index@),
{
    broadcast use group_hash_axioms;

    let mut index: HashMap<u128, usize> = HashMap::new();
    let mut i: usize = 0;
    while i < places.len()
        invariant
            i <= places.len(),
            distinct_positions(places@.take(i as int)),
            indexed(places@.take(i as int), index@),
        decreases places.len() - i,
    {
        let ghost before = index@;
        let ghost known = places@.take(i as int);
        let ghost next = places@.take(i + 1);
        let pos = places[i].pos;
        let key = key_of(pos);
        proof {
            lemma_place_at(known, pos, 0);
        }
        if index.contains_key(&key) {
            proof {
                let a = place_at(known, pos, 0);
                assert(known[a] == places@[a]);
                assert(places@[a].pos == places@[i as int].pos);
            }
            return None;
        }
        index.insert(key, i);
        proof {
            assert forall|a: int, b: int| 0 <= a < b < next.len() implies (#[trigger] next[a]).pos != (
            #[trigger] next[b]).pos by {
                if b < i {
                    assert(known[a].pos != known[b].pos);
                } else {
                    lemma_place_at(known, pos, 0);
                    assert(known[a] == next[a]);
                }
            }
            assert forall|p: Pos|
                index@.contains_key(#[trigger] pos_key(p)) == has_room(next, p) && (has_room(
                    next,
                    p,
                ) ==> index@[pos_key(p)] == place_at(next, p, 0)) by {
                lemma_place_at_next(places@, i as int, p, 0);
                lemma_place_at(known, p, 0);
                if pos_key(p) == key {
                    lemma_pos_key(p, pos);
                }
                assert(before.contains_key(pos_key(p)) == has_room(known, p));
            }
        }
        i = i + 1;
    }
    proof {
        assert(places@.take(i as int) =~= places@);
    }
    Some(index)
}

/// Builds the index of identifiers.
pub(super) fn index_ids(places: &Vec<Place>) -> (r: HashMap<u64, usize>)
    ensures
        id_indexed(places@, r@),
{
    broadcast use group_hash_axioms;

    let mut index: HashMap<u64, usize> = HashMap::new();
    let mut i: usize = 0;
    while i < places.len()
        invariant
            i <= places.len(),
            id_indexed(places@.take(i as int), index@),
        decreases places.len() - i,
    {
        let ghost before = index@;
        let ghost known = places@.take(i as int);
        let ghost next = places@.take(i + 1);
        let id = places[i].cell.id;
        if !index.contains_key(&id.0) {
            index.insert(id.0, i);
        }
        proof {
            assert forall|other: Identifier|
                index@.contains_key(#[trigger] other.0) == (place_of(next, other, 0) < next.len())
                    && (place_of(next, other, 0) < next.len() ==> index@[other.0] == place_of(
                    next,
                    other,
                    0,
                )) by {
                lemma_place_of_next(places@, i as int, other, 0);
                lemma_place_of(known, other, 0);
                assert(before.contains_key(other.0) == (place_of(known, other, 0) < known.len()));
            }
        }
        i = i + 1;
    }
    proof {
        assert(places@.take(i as int) =~= places@);
    }
    index
}

} // verus!
