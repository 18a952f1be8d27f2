//! The record that the store keeps for a room.
//!
//! A record holds, one after another: the identifier of the room in eight
//! bytes; the two coordinates of its centre in four bytes each; the number
//! of bytes of its colour in eight bytes, and the colour in UTF-8; the
//! number of its neighbours in eight bytes, and the identifier of each in
//! eight bytes. Numbers are written with the most significant byte first.

use crate::messages::xid::Identifier;
use crate::messages::Point;
use crate::messages::Room;
use crate::messages::RoomView;
use vstd::prelude::*;
use vstd::utf8::decode_utf8;
use vstd::utf8::decode_utf8_encode_utf8;
use vstd::utf8::encode_utf8;
use vstd::utf8::encode_utf8_decode_utf8;
use vstd::utf8::encode_utf8_valid_utf8;
use vstd::utf8::valid_utf8;

verus! {

/// `v` written in `width` bytes, the most significant first; what does not
/// fit is dropped from the front.
pub open spec fn be(v: nat, width: nat) -> Seq<u8>
    decreases width,
{
    if width == 0 {
        Seq::empty()
    } else {
        be(v / 256, (width - 1) as nat).push((v % 256) as u8)
    }
}

/// The number that the bytes `s` denote, the most significant first.
pub open spec fn be_value(s: Seq<u8>) -> nat
    decreases s.len(),
{
    if s.len() == 0 {
        0
    } else {
        be_value(s.drop_last()) * 256 + s.last() as nat
    }
}

/// The identifiers `ids`, each written in eight bytes.
pub open spec fn id_bytes(ids: Seq<Identifier>) -> Seq<u8>
    decreases ids.len(),
{
    if ids.len() == 0 {
        Seq::empty()
    } else {
        id_bytes(ids.drop_last()) + be(ids.last().0 as nat, 8)
    }
}

/// The record of a room.
pub open spec fn record(room: RoomView) -> Seq<u8> {
    be(room.xid.0 as nat, 8) + be(room.pos.x as nat, 4) + be(room.pos.y as nat, 4) + be(
        encode_utf8(room.col).len(),
        8,
    ) + encode_utf8(room.col) + be(room.see.len(), 8) + id_bytes(room.see)
}

/// The number written in the `width` bytes of `bytes` that start at `at`.
pub open spec fn number_at(bytes: Seq<u8>, at: int, width: int) -> nat {
    be_value(bytes.subrange(at, at + width))
}

/// The room that the record `bytes` describes; nothing where `bytes` is no
/// record.
pub open spec fn unrecord(bytes: Seq<u8>) -> Option<RoomView> {
    if bytes.len() < 24 {
        None
    } else {
        let n = number_at(bytes, 16, 8) as int;
        if bytes.len() < 32 + n {
            None
        } else {
            let m = number_at(bytes, 24 + n, 8) as int;
            if bytes.len() != 32 + n + 8 * m || !valid_utf8(bytes.subrange(24, 24 + n)) {
                None
            } else {
                Some(
                    RoomView {
                        xid: Identifier(number_at(bytes, 0, 8) as u64),
                        pos: Point {
                            x: number_at(bytes, 8, 4) as u32,
                            y: number_at(bytes, 12, 4) as u32,
                        },
                        col: decode_utf8(bytes.subrange(24, 24 + n)),
                        see: Seq::new(
                            m as nat,
                            |i: int| Identifier(number_at(bytes, 32 + n + 8 * i, 8) as u64),
                        ),
                    },
                )
            }
        }
    }
}

/// Whether `v` can be written in `width` bytes.
pub open spec fn be_fits(v: nat, width: nat) -> bool
    decreases width,
{
    if width == 0 {
        v == 0
    } else {
        be_fits(v / 256, (width - 1) as nat)
    }
}

/// A number written in `width` bytes takes `width` bytes.
pub proof fn lemma_be_len(v: nat, width: nat)
    ensures
        be(v, width).len() == width,
    decreases width,
{
    if width > 0 {
        lemma_be_len(v / 256, (width - 1) as nat);
    }
}

/// Reading a number that was written in `width` bytes gives the number
/// back, where it fits.
pub proof fn lemma_be_value_of_be(v: nat, width: nat)
    requires
        be_fits(v, width),
    ensures
        be_value(be(v, width)) == v,
    decreases width,
{
    if width > 0 {
        lemma_be_value_of_be(v / 256, (width - 1) as nat);
        let s = be(v, width);
        assert(s.drop_last() =~= be(v / 256, (width - 1) as nat));
        assert(s.last() == (v % 256) as u8);
        assert(be_value(s) == (v / 256) * 256 + v % 256);
    }
}

/// Writing the number that bytes denote, in as many bytes, gives the bytes
/// back.
pub proof fn lemma_be_of_be_value(s: Seq<u8>)
    ensures
        be_fits(be_value(s), s.len()),
        be(be_value(s), s.len()) == s,
    decreases s.len(),
{
    if s.len() > 0 {
        lemma_be_of_be_value(s.drop_last());
        let v = be_value(s);
        assert(v / 256 == be_value(s.drop_last()) && v % 256 == s.last());
        assert(be(v, s.len()) =~= s);
    }
}

/// The numbers of 64 bits are those that fit in eight bytes, the numbers of
/// 32 bits those that fit in four.
pub proof fn lemma_be_widths(v: nat)
    ensures
        v <= u64::MAX <==> be_fits(v, 8),
        v <= u32::MAX <==> be_fits(v, 4),
{
    reveal_with_fuel(be_fits, 9);
}

/// Identifiers written in eight bytes each take eight bytes each.
pub proof fn lemma_id_bytes_len(ids: Seq<Identifier>)
    ensures
        id_bytes(ids).len() == 8 * ids.len(),
    decreases ids.len(),
{
    if ids.len() > 0 {
        lemma_id_bytes_len(ids.drop_last());
        lemma_be_len(ids.last().0 as nat, 8);
    }
}

/// The `i`-th of the identifiers `ids`, written in eight bytes each, stands
/// in the eight bytes that start at `8 * i`.
pub proof fn lemma_id_bytes_at(ids: Seq<Identifier>, i: int)
    requires
        0 <= i < ids.len(),
    ensures
        id_bytes(ids).len() == 8 * ids.len(),
        id_bytes(ids).subrange(8 * i, 8 * i + 8) == be(ids[i].0 as nat, 8),
    decreases ids.len(),
{
    let head = ids.drop_last();
    lemma_id_bytes_len(ids);
    lemma_id_bytes_len(head);
    lemma_be_len(ids.last().0 as nat, 8);
    if i == ids.len() - 1 {
        assert(id_bytes(ids).subrange(8 * i, 8 * i + 8) =~= be(ids[i].0 as nat, 8));
    } else {
        lemma_id_bytes_at(head, i);
        assert(id_bytes(ids).subrange(8 * i, 8 * i + 8) =~= id_bytes(head).subrange(
            8 * i,
            8 * i + 8,
        ));
    }
}

/// Bytes that hold the identifiers `ids` in eight bytes each are those
/// identifiers written in eight bytes each.
pub proof fn lemma_id_bytes_of(bytes: Seq<u8>, ids: Seq<Identifier>)
    requires
        bytes.len() == 8 * ids.len(),
        forall|i: int|
            0 <= i < ids.len() ==> (#[trigger] ids[i]).0 == be_value(
                bytes.subrange(8 * i, 8 * i + 8),
            ),
    ensures
        id_bytes(ids) == bytes,
    decreases ids.len(),
{
    if ids.len() == 0 {
        assert(bytes =~= Seq::<u8>::empty());
    } else {
        let head = ids.drop_last();
        let n = ids.len() - 1;
        let front = bytes.subrange(0, 8 * n);
        assert forall|i: int| 0 <= i < head.len() implies (#[trigger] head[i]).0 == be_value(
            front.subrange(8 * i, 8 * i + 8),
        ) by {
            assert(head[i] == ids[i]);
            assert(front.subrange(8 * i, 8 * i + 8) =~= bytes.subrange(8 * i, 8 * i + 8));
        }
        lemma_id_bytes_of(front, head);
        let last = bytes.subrange(8 * n, 8 * n + 8);
        assert(ids[n].0 == be_value(last));
        lemma_be_of_be_value(last);
        assert(bytes =~= front + last);
    }
}

/// A room is read back from its record unchanged.
pub proof fn law_record_round_trip(room: RoomView)
    requires
        room.see.len() <= u64::MAX,
        encode_utf8(room.col).len() <= u64::MAX,
    ensures
        unrecord(record(room)) == Some(room),
{
    let bytes = record(room);
    let col = encode_utf8(room.col);
    let n = col.len() as int;
    let m = room.see.len() as int;
    lemma_be_len(room.xid.0 as nat, 8);
    lemma_be_len(room.pos.x as nat, 4);
    lemma_be_len(room.pos.y as nat, 4);
    lemma_be_len(col.len(), 8);
    lemma_be_len(room.see.len(), 8);
    lemma_id_bytes_len(room.see);
    lemma_be_widths(room.xid.0 as nat);
    lemma_be_widths(room.pos.x as nat);
    lemma_be_widths(room.pos.y as nat);
    lemma_be_widths(col.len());
    lemma_be_widths(room.see.len());
    lemma_be_value_of_be(room.xid.0 as nat, 8);
    lemma_be_value_of_be(room.pos.x as nat, 4);
    lemma_be_value_of_be(room.pos.y as nat, 4);
    lemma_be_value_of_be(col.len(), 8);
    lemma_be_value_of_be(room.see.len(), 8);
    assert(bytes.len() == 32 + n + 8 * m);
    assert(bytes.subrange(0, 8) =~= be(room.xid.0 as nat, 8));
    assert(bytes.subrange(8, 12) =~= be(room.pos.x as nat, 4));
    assert(bytes.subrange(12, 16) =~= be(room.pos.y as nat, 4));
    assert(bytes.subrange(16, 24) =~= be(col.len(), 8));
    assert(bytes.subrange(24, 24 + n) =~= col);
    assert(bytes.subrange(24 + n, 32 + n) =~= be(room.see.len(), 8));
    encode_utf8_valid_utf8(room.col);
    encode_utf8_decode_utf8(room.col);
    let read = unrecord(bytes).unwrap();
    assert forall|i: int| 0 <= i < m implies read.see[i] == room.see[i] by {
        lemma_id_bytes_at(room.see, i);
        assert(bytes.subrange(32 + n + 8 * i, 32 + n + 8 * i + 8) =~= id_bytes(room.see).subrange(
            8 * i,
            8 * i + 8,
        ));
        lemma_be_widths(room.see[i].0 as nat);
        lemma_be_value_of_be(room.see[i].0 as nat, 8);
    }
    assert(read.see =~= room.see);
}

/// Bytes that describe a room are the record of that room, and of no
/// other.
pub proof fn law_unrecord_is_exact(bytes: Seq<u8>)
    requires
        unrecord(bytes) is Some,
    ensures
        record(unrecord(bytes).unwrap()) == bytes,
{
    let room = unrecord(bytes).unwrap();
    let n = number_at(bytes, 16, 8) as int;
    let m = number_at(bytes, 24 + n, 8) as int;
    let col = bytes.subrange(24, 24 + n);
    decode_utf8_encode_utf8(col);
    lemma_be_of_be_value(bytes.subrange(0, 8));
    lemma_be_of_be_value(bytes.subrange(8, 12));
    lemma_be_of_be_value(bytes.subrange(12, 16));
    lemma_be_of_be_value(bytes.subrange(16, 24));
    lemma_be_of_be_value(bytes.subrange(24 + n, 32 + n));
    lemma_be_widths(number_at(bytes, 0, 8));
    lemma_be_widths(number_at(bytes, 8, 4));
    lemma_be_widths(number_at(bytes, 12, 4));
    let tail = bytes.subrange(32 + n, 32 + n + 8 * m);
    assert forall|i: int| 0 <= i < room.see.len() implies (#[trigger] room.see[i]).0 == be_value(
        tail.subrange(8 * i, 8 * i + 8),
    ) by {
        let part = bytes.subrange(32 + n + 8 * i, 32 + n + 8 * i + 8);
        assert(tail.subrange(8 * i, 8 * i + 8) =~= part);
        lemma_be_of_be_value(part);
        lemma_be_widths(be_value(part));
    }
    lemma_id_bytes_of(tail, room.see);
    assert(bytes =~= record(room));
}

/// `String::from_utf8` of the standard library: the string whose UTF-8
/// encoding the bytes are, or nothing where the bytes are not valid UTF-8.
#[verifier::external_body]
fn string_from_utf8(bytes: Vec<u8>) -> (r: Option<String>)
    ensures
        r is Some <==> valid_utf8(bytes@),
        r matches Some(s) ==> encode_utf8(s@) == bytes@,
{
    String::from_utf8(bytes).ok()
}

/// Appends `v`, written in eight bytes, to `out`.
fn put_u64(out: &mut Vec<u8>, v: u64)
    ensures
        final(out)@ == old(out)@ + be(v as nat, 8),
{
    reveal_with_fuel(be, 9);
    let b7 = (v % 256) as u8;
    let v6 = v / 256;
    let b6 = (v6 % 256) as u8;
    let v5 = v6 / 256;
    let b5 = (v5 % 256) as u8;
    let v4 = v5 / 256;
    let b4 = (v4 % 256) as u8;
    let v3 = v4 / 256;
    let b3 = (v3 % 256) as u8;
    let v2 = v3 / 256;
    let b2 = (v2 % 256) as u8;
    let v1 = v2 / 256;
    let b1 = (v1 % 256) as u8;
    let v0 = v1 / 256;
    let b0 = (v0 % 256) as u8;
    out.push(b0);
    out.push(b1);
    out.push(b2);
    out.push(b3);
    out.push(b4);
    out.push(b5);
    out.push(b6);
    out.push(b7);
    assert(out@ =~= old(out)@ + be(v as nat, 8));
}

/// Appends `v`, written in four bytes, to `out`.
fn put_u32(out: &mut Vec<u8>, v: u32)
    ensures
        final(out)@ == old(out)@ + be(v as nat, 4),
{
    reveal_with_fuel(be, 5);
    let b3 = (v % 256) as u8;
    let v2 = v / 256;
    let b2 = (v2 % 256) as u8;
    let v1 = v2 / 256;
    let b1 = (v1 % 256) as u8;
    let v0 = v1 / 256;
    let b0 = (v0 % 256) as u8;
    out.push(b0);
    out.push(b1);
    out.push(b2);
    out.push(b3);
    assert(out@ =~= old(out)@ + be(v as nat, 4));
}

/// Reads the number written in the four bytes of `bytes` that start at
/// `at`.
fn get_u32(bytes: &Vec<u8>, at: usize) -> (r: u32)
    requires
        at + 4 <= bytes.len(),
    ensures
        r == number_at(bytes@, at as int, 4),
{
    let ghost s = bytes@.subrange(at as int, at + 4);
    proof {
        reveal_with_fuel(be_value, 5);
        assert(s.drop_last().drop_last().drop_last().drop_last() =~= Seq::<u8>::empty());
        assert(s.last() == bytes@[at + 3]);
        assert(s.drop_last().last() == bytes@[at + 2]);
        assert(s.drop_last().drop_last().last() == bytes@[at + 1]);
        assert(s.drop_last().drop_last().drop_last().last() == bytes@[at as int]);
    }
    let b0 = bytes[at] as u32;
    let b1 = bytes[at + 1] as u32;
    let b2 = bytes[at + 2] as u32;
    let b3 = bytes[at + 3] as u32;
    ((b0 * 256 + b1) * 256 + b2) * 256 + b3
}

/// Reads the number written in the eight bytes of `bytes` that start at
/// `at`.
fn get_u64(bytes: &Vec<u8>, at: usize) -> (r: u64)
    requires
        at + 8 <= bytes.len(),
    ensures
        r == number_at(bytes@, at as int, 8),
{
    let ghost s = bytes@.subrange(at as int, at + 8);
    let ghost high = bytes@.subrange(at as int, at + 4);
    let ghost low = bytes@.subrange(at + 4, at + 8);
    let h = get_u32(bytes, at) as u64;
    let l = get_u32(bytes, at + 4) as u64;
    proof {
        reveal_with_fuel(be_value, 5);
        let s1 = s.drop_last();
        let s2 = s1.drop_last();
        let s3 = s2.drop_last();
        let s4 = s3.drop_last();
        assert(s4 =~= high);
        assert(s.last() == low[3] && s1.last() == low[2] && s2.last() == low[1] && s3.last()
            == low[0]);
        let l1 = low.drop_last();
        let l2 = l1.drop_last();
        let l3 = l2.drop_last();
        assert(l3.drop_last() =~= Seq::<u8>::empty());
        assert(low.last() == low[3] && l1.last() == low[2] && l2.last() == low[1] && l3.last()
            == low[0]);
        assert(be_value(s) == be_value(high) * 4294967296 + be_value(low));
    }
    h * 4294967296 + l
}

/// Writes the record of a room.
pub fn encode(room: &Room) -> (r: Vec<u8>)
    ensures
        r@ == record(room@),
{
    let mut out: Vec<u8> = Vec::new();
    put_u64(&mut out, room.xid.0);
    put_u32(&mut out, room.pos.x);
    put_u32(&mut out, room.pos.y);
    let col = room.col.as_str().as_bytes();
    put_u64(&mut out, col.len() as u64);
    let mut i: usize = 0;
    let ghost before = out@;
    while i < col.len()
        invariant
            i <= col.len(),
            out@ == before + col@.take(i as int),
        decreases col.len() - i,
    {
        out.push(col[i]);
        assert(col@.take(i + 1) =~= col@.take(i as int).push(col@[i as int]));
        i = i + 1;
    }
    assert(col@.take(i as int) =~= col@);
    put_u64(&mut out, room.see.len() as u64);
    let ghost before = out@;
    let mut k: usize = 0;
    while k < room.see.len()
        invariant
            k <= room.see.len(),
            out@ == before + id_bytes(room.see@.take(k as int)),
        decreases room.see.len() - k,
    {
        assert(room.see@.take(k + 1).drop_last() =~= room.see@.take(k as int));
        put_u64(&mut out, room.see[k].0);
        k = k + 1;
    }
    assert(room.see@.take(k as int) =~= room.see@);
    out
}

/// Reads the room that a record describes; nothing where the bytes are no
/// record.
pub fn decode(bytes: &Vec<u8>) -> (r: Option<Room>)
    ensures
        r is Some <==> unrecord(bytes@) is Some,
        r matches Some(room) ==> Some(room@) == unrecord(bytes@),
{
    let len = bytes.len();
    if len < 24 {
        return None;
    }
    let xid = Identifier(get_u64(bytes, 0));
    let x = get_u32(bytes, 8);
    let y = get_u32(bytes, 12);
    let n = get_u64(bytes, 16);
    if n > (len - 24) as u64 || len - 24 - (n as usize) < 8 {
        return None;
    }
    let n = n as usize;
    let m = get_u64(bytes, 24 + n);
    let rest = len - 32 - n;
    if m > (rest / 8) as u64 || (m as usize) * 8 != rest {
        return None;
    }
    let m = m as usize;
    let mut text: Vec<u8> = Vec::new();
    let mut i: usize = 0;
    while i < n
        invariant
            i <= n,
            24 + n <= bytes.len(),
            text@ == bytes@.subrange(24, 24 + i),
        decreases n - i,
    {
        text.push(bytes[24 + i]);
        assert(bytes@.subrange(24, 24 + i + 1) =~= bytes@.subrange(24, 24 + i).push(
            bytes@[24 + i],
        ));
        i = i + 1;
    }
    let col = match string_from_utf8(text) {
        Some(col) => col,
        None => {
            return None;
        },
    };
    proof {
        encode_utf8_decode_utf8(col@);
    }
    let mut see: Vec<Identifier> = Vec::new();
    let mut k: usize = 0;
    while k < m
        invariant
            k <= m,
            bytes.len() == 32 + n + 8 * m,
            see@.len() == k,
            forall|j: int|
                0 <= j < k ==> see@[j] == Identifier(
                    number_at(bytes@, 32 + n + 8 * j, 8) as u64,
                ),
        decreases m - k,
    {
        see.push(Identifier(get_u64(bytes, 32 + n + 8 * k)));
        k = k + 1;
    }
    let room = Room { xid, pos: Point { x, y }, col, see };
    assert(room@.see =~= unrecord(bytes@).unwrap().see);
    Some(room)
}

} // verus!
