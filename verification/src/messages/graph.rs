//! The shape of the graph of a message.
//!
//! The rooms of a message form one piece: every room can be reached from
//! the entry room. And every step can be taken back: where one step leads
//! from a room to another, one step leads from the other to the first.

use super::index::indexed;
use super::index::locate;
use super::distinct_positions;
use super::lemma_place_at;
use super::origin;
use super::place_at;
use super::Place;
use super::Pos;
use std::collections::HashMap;
use vstd::prelude::*;

verus! {

/// Whether one step leads from the room `places[a]` to the room
/// `places[b]`.
pub open spec fn linked(places: Seq<Place>, a: int, b: int) -> bool {
    0 <= a < places.len() && 0 <= b < places.len() && places[a].neighbors@.contains(
        places[b].pos,
    )
}

/// Whether every step between two rooms can be taken back.
pub open spec fn symmetric(places: Seq<Place>) -> bool {
    forall|a: int, b: int| #[trigger] linked(places, a, b) ==> linked(places, b, a)
}

/// Whether the room `places[to]` can be reached from the room
/// `places[from]` in `steps` steps at most.
pub open spec fn reached_within(places: Seq<Place>, from: int, to: int, steps: nat) -> bool
    decreases steps,
{
    if steps == 0 {
        to == from
    } else {
        reached_within(places, from, to, (steps - 1) as nat) || exists|via: int|
            reached_within(places, from, via, (steps - 1) as nat) && #[trigger] linked(
                places,
                via,
                to,
            )
    }
}

/// Whether the room `places[to]` can be reached from the entry room.
pub open spec fn reachable(places: Seq<Place>, to: int) -> bool {
    exists|steps: nat| reached_within(places, place_at(places, origin(), 0), to, steps)
}

/// Whether every room can be reached from the entry room.
pub open spec fn connected(places: Seq<Place>) -> bool {
    forall|i: int| 0 <= i < places.len() ==> reachable(places, i)
}

/// The number of marks that are not set.
pub open spec fn unmarked(marks: Seq<bool>) -> nat
    decreases marks.len(),
{
    if marks.len() == 0 {
        0
    } else {
        unmarked(marks.drop_last()) + if marks.last() {
            0nat
        } else {
            1nat
        }
    }
}

/// Whether every room that one step from the room `places[x]` leads to is
/// marked.
pub open spec fn closed_at(places: Seq<Place>, marks: Seq<bool>, x: int) -> bool {
    forall|b: int| #[trigger] linked(places, x, b) ==> marks[b]
}

/// Whether `x` is among the rooms that wait to be looked at.
pub open spec fn waiting(work: Seq<usize>, x: int) -> bool {
    exists|w: int| 0 <= w < work.len() && #[trigger] work[w] == x
}

/// Setting a mark leaves one mark fewer that is not set.
proof fn lemma_mark(marks: Seq<bool>, i: int)
    requires
        0 <= i < marks.len(),
        !marks[i],
    ensures
        unmarked(marks.update(i, true)) + 1 == unmarked(marks),
    decreases marks.len(),
{
    let after = marks.update(i, true);
    if i == marks.len() - 1 {
        assert(after.drop_last() =~= marks.drop_last());
    } else {
        assert(after.drop_last() =~= marks.drop_last().update(i, true));
        lemma_mark(marks.drop_last(), i);
    }
}

/// A room that is reached is one step from a room that is reached one
/// step earlier.
proof fn lemma_one_more_step(places: Seq<Place>, a: int, b: int)
    requires
        reachable(places, a),
        linked(places, a, b),
    ensures
        reachable(places, b),
{
    let entry = place_at(places, origin(), 0);
    let steps = choose|steps: nat| reached_within(places, entry, a, steps);
    assert(reached_within(places, entry, b, steps + 1));
}

/// Marks that hold the entry room and, with every room, the rooms one step
/// from it, hold every room that can be reached.
proof fn lemma_closed_marks(places: Seq<Place>, marks: Seq<bool>, to: int, steps: nat)
    requires
        marks.len() == places.len(),
        0 <= place_at(places, origin(), 0) < places.len(),
        marks[place_at(places, origin(), 0)],
        forall|x: int| 0 <= x < marks.len() && #[trigger] marks[x] ==> closed_at(places, marks, x),
        reached_within(places, place_at(places, origin(), 0), to, steps),
    ensures
        0 <= to < places.len(),
        marks[to],
    decreases steps,
{
    let entry = place_at(places, origin(), 0);
    if steps > 0 {
        if reached_within(places, entry, to, (steps - 1) as nat) {
            lemma_closed_marks(places, marks, to, (steps - 1) as nat);
        } else {
            let via = choose|via: int|
                reached_within(places, entry, via, (steps - 1) as nat) && #[trigger] linked(
                    places,
                    via,
                    to,
                );
            lemma_closed_marks(places, marks, via, (steps - 1) as nat);
            assert(closed_at(places, marks, via));
        }
    }
}

/// Where no two rooms lie at the same position, the room that is found at
/// the position of a room is that room.
proof fn lemma_found_is_the_room(places: Seq<Place>, b: int)
    requires
        distinct_positions(places),
        0 <= b < places.len(),
    ensures
        place_at(places, places[b].pos, 0) == b,
{
    lemma_place_at(places, places[b].pos, 0);
    let found = place_at(places, places[b].pos, 0);
    if found < b {
        assert(places[found].pos != places[b].pos);
    }
}

/// Decides whether `pos` is among `steps`.
fn has_step(steps: &Vec<Pos>, pos: Pos) -> (r: bool)
    ensures
        r == steps@.contains(pos),
{
    let mut k: usize = 0;
    while k < steps.len()
        invariant
            k <= steps.len(),
            forall|j: int| 0 <= j < k ==> steps@[j] != pos,
        decreases steps.len() - k,
    {
        if steps[k] == pos {
            return true;
        }
        k = k + 1;
    }
    false
}

/// Decides whether every step between two rooms can be taken back.
pub(super) fn is_symmetric(places: &Vec<Place>, index: &HashMap<u128, usize>) -> (r: bool)
    requires
        distinct_positions(places@),
        indexed(places@, index@),
    ensures
        r == symmetric(places@),
{
    let mut a: usize = 0;
    while a < places.len()
        invariant
            a <= places.len(),
            distinct_positions(places@),
            indexed(places@, index@),
            forall|x: int, b: int|
                0 <= x < a && #[trigger] linked(places@, x, b) ==> linked(places@, b, x),
        decreases places.len() - a,
    {
        let steps = &places[a].neighbors;
        let mut k: usize = 0;
        while k < steps.len()
            invariant
                k <= steps.len(),
                a < places.len(),
                steps@ == places@[a as int].neighbors@,
                distinct_positions(places@),
                indexed(places@, index@),
            indexed(places@, index@),
                forall|b: int|
                    0 <= b < places.len() && steps@.take(k as int).contains(
                        (#[trigger] places@[b]).pos,
                    ) ==> linked(places@, b, a as int),
            decreases steps.len() - k,
        {
            let b = locate(places, index, steps[k]);
            if b < places.len() && !has_step(&places[b].neighbors, places[a].pos) {
                proof {
                    assert(steps@.contains(steps@[k as int]));
                    assert(linked(places@, a as int, b as int));
                    assert(!linked(places@, b as int, a as int));
                }
                return false;
            }
            proof {
                let done = steps@.take(k + 1);
                assert forall|c: int|
                    0 <= c < places.len() && done.contains((#[trigger] places@[c]).pos) implies linked(
                    places@,
                    c,
                    a as int,
                ) by {
                    let at = choose|at: int| 0 <= at < done.len() && done[at] == places@[c].pos;
                    if at < k {
                        assert(steps@.take(k as int)[at] == places@[c].pos);
                    } else {
                        lemma_found_is_the_room(places@, c);
                    }
                }
            }
            k = k + 1;
        }
        proof {
            assert(steps@.take(k as int) =~= steps@);
            assert forall|x: int, b: int|
                0 <= x < a + 1 && #[trigger] linked(places@, x, b) implies linked(places@, b, x) by {
                if x == a {
                    assert(steps@.contains(places@[b].pos));
                }
            }
        }
        a = a + 1;
    }
    true
}

/// Decides whether every room can be reached from the entry room, which is
/// the room `places[entry]`.
pub(super) fn is_connected(places: &Vec<Place>, index: &HashMap<u128, usize>, entry: usize) -> (r:
    bool)
    requires
        distinct_positions(places@),
        indexed(places@, index@),
        entry < places.len(),
        entry == place_at(places@, origin(), 0),
    ensures
        r == connected(places@),
{
    let n = places.len();
    let mut marks: Vec<bool> = Vec::new();
    let mut i: usize = 0;
    while i < n
        invariant
            i <= n,
            marks.len() == i,
            forall|j: int| 0 <= j < i ==> !marks@[j],
        decreases n - i,
    {
        marks.push(false);
        i = i + 1;
    }
    marks.set(entry, true);
    let mut work: Vec<usize> = Vec::new();
    work.push(entry);
    proof {
        assert(reached_within(places@, entry as int, entry as int, 0));
        assert(work@[0] == entry);
        assert(waiting(work@, entry as int));
    }
    while work.len() > 0
        invariant
            n == places.len(),
            marks.len() == n,
            distinct_positions(places@),
            indexed(places@, index@),
            entry < n,
            entry == place_at(places@, origin(), 0),
            marks@[entry as int],
            forall|w: int|
                0 <= w < work.len() ==> (#[trigger] work@[w]) < n && marks@[work@[w] as int],
            forall|x: int| 0 <= x < n && #[trigger] marks@[x] ==> reachable(places@, x),
            forall|x: int|
                0 <= x < n && #[trigger] marks@[x] ==> waiting(work@, x) || closed_at(
                    places@,
                    marks@,
                    x,
                ),
        decreases 2 * unmarked(marks@) + work.len(),
    {
        let ghost start = 2 * unmarked(marks@) + work.len();
        let ghost waited = work@;
        let a = match work.pop() {
            Some(a) => a,
            None => {
                return false;
            },
        };
        proof {
            assert(a == waited[waited.len() - 1]);
            assert forall|x: int| waiting(waited, x) implies waiting(work@, x) || x == a by {
                let w = choose|w: int| 0 <= w < waited.len() && #[trigger] waited[w] == x;
                if w < work.len() {
                    assert(work@[w] == x);
                }
            }
        }
        let steps = &places[a].neighbors;
        let mut k: usize = 0;
        while k < steps.len()
            invariant
                k <= steps.len(),
                a < n,
                n == places.len(),
                marks.len() == n,
                steps@ == places@[a as int].neighbors@,
                distinct_positions(places@),
                indexed(places@, index@),
            indexed(places@, index@),
                entry < n,
                marks@[entry as int],
                marks@[a as int],
                forall|w: int|
                    0 <= w < work.len() ==> (#[trigger] work@[w]) < n && marks@[work@[w] as int],
                forall|x: int| 0 <= x < n && #[trigger] marks@[x] ==> reachable(places@, x),
                forall|x: int|
                    0 <= x < n && #[trigger] marks@[x] ==> waiting(work@, x) || x == a
                        || closed_at(places@, marks@, x),
                forall|b: int|
                    0 <= b < n && steps@.take(k as int).contains((#[trigger] places@[b]).pos)
                        ==> marks@[b],
                2 * unmarked(marks@) + work.len() + 1 <= start,
            decreases steps.len() - k,
        {
            let ghost marked = marks@;
            let ghost queued = work@;
            let b = locate(places, index, steps[k]);
            if b < n && !marks[b] {
                proof {
                    lemma_mark(marks@, b as int);
                    assert(steps@.contains(steps@[k as int]));
                    assert(linked(places@, a as int, b as int));
                    lemma_one_more_step(places@, a as int, b as int);
                }
                marks.set(b, true);
                work.push(b);
                proof {
                    assert(work@[work.len() - 1] == b);
                    assert(waiting(work@, b as int));
                    assert forall|x: int| waiting(queued, x) implies waiting(work@, x) by {
                        let w = choose|w: int| 0 <= w < queued.len() && #[trigger] queued[w] == x;
                        assert(work@[w] == x);
                    }
                }
            }
            proof {
                assert forall|x: int| closed_at(places@, marked, x) implies closed_at(
                    places@,
                    marks@,
                    x,
                ) by {
                    assert forall|c: int| #[trigger] linked(places@, x, c) implies marks@[c] by {
                        assert(marked[c]);
                    }
                }
                let done = steps@.take(k + 1);
                assert forall|c: int|
                    0 <= c < n && done.contains((#[trigger] places@[c]).pos) implies marks@[c] by {
                    let at = choose|at: int| 0 <= at < done.len() && done[at] == places@[c].pos;
                    if at < k {
                        assert(steps@.take(k as int)[at] == places@[c].pos);
                        assert(marked[c]);
                    } else {
                        lemma_found_is_the_room(places@, c);
                    }
                }
            }
            k = k + 1;
        }
        proof {
            assert(steps@.take(k as int) =~= steps@);
            assert(closed_at(places@, marks@, a as int)) by {
                assert forall|c: int| #[trigger] linked(places@, a as int, c) implies marks@[c] by {
                    assert(steps@.contains(places@[c].pos));
                }
            }
        }
    }
    proof {
        assert forall|x: int| 0 <= x < n && #[trigger] marks@[x] implies closed_at(
            places@,
            marks@,
            x,
        ) by {
            if waiting(work@, x) {
                let w = choose|w: int| 0 <= w < work.len() && #[trigger] work@[w] == x;
            }
        }
    }
    let mut t: usize = 0;
    while t < n
        invariant
            t <= n,
            n == places.len(),
            marks.len() == n,
            entry == place_at(places@, origin(), 0),
            entry < n,
            marks@[entry as int],
            forall|x: int| 0 <= x < n && #[trigger] marks@[x] ==> reachable(places@, x),
            forall|x: int|
                0 <= x < n && #[trigger] marks@[x] ==> closed_at(places@, marks@, x),
            forall|x: int| 0 <= x < t ==> marks@[x],
        decreases n - t,
    {
        if !marks[t] {
            proof {
                if reachable(places@, t as int) {
                    let steps = choose|steps: nat|
                        reached_within(places@, entry as int, t as int, steps);
                    lemma_closed_marks(places@, marks@, t as int, steps);
                }
            }
            return false;
        }
        t = t + 1;
    }
    proof {
        assert forall|x: int| 0 <= x < n implies reachable(places@, x) by {
            assert(marks@[x]);
        }
    }
    true
}

} // verus!
