//! Agent protocol and integration layer: the messages agents send, the
//! session logic that answers them, and bounded line reading for the
//! transport.
pub mod mcp;
pub mod protocol;
pub mod transport;
pub mod session;

use vstd::prelude::*;
use std::io::Cursor;

verus! {

#[verifier::external_type_specification]
#[verifier::external_body]
#[verifier::reject_recursive_types(T)]
pub struct ExCursor<T>(Cursor<T>);

#[verifier::external_type_specification]
#[verifier::external_body]
pub struct ExIoError(std::io::Error);

/// The bytes a cursor reads from.
pub uninterp spec fn cursor_bytes(c: Cursor<Vec<u8>>) -> Seq<u8>;

/// The read position of a cursor.
pub uninterp spec fn cursor_pos(c: Cursor<Vec<u8>>) -> u64;

/// `Cursor::get_ref`: the underlying bytes.
#[verifier::external_body]
fn cursor_get_ref(c: &Cursor<Vec<u8>>) -> (r: &Vec<u8>)
    ensures
        r@ == cursor_bytes(*c),
{
    c.get_ref()
}

/// `Cursor::position`: the current read position.
#[verifier::external_body]
fn cursor_position(c: &Cursor<Vec<u8>>) -> (r: u64)
    ensures
        r == cursor_pos(*c),
{
    c.position()
}

/// `Cursor::set_position`: moves the read position; the bytes stay.
#[verifier::external_body]
fn cursor_set_position(c: &mut Cursor<Vec<u8>>, pos: u64)
    ensures
        cursor_pos(*final(c)) == pos,
        cursor_bytes(*final(c)) == cursor_bytes(*old(c)),
{
    c.set_position(pos)
}

/// The index of the first line feed in `s`, or its length if there is none.
pub open spec fn line_end(s: Seq<u8>) -> int
    decreases s.len(),
{
    if s.len() == 0 {
        0
    } else if s[0] == 10u8 {
        0
    } else {
        1 + line_end(s.drop_first())
    }
}

/// The bytes a cursor has left to read.
pub open spec fn cursor_rest(c: Cursor<Vec<u8>>) -> Seq<u8> {
    let data = cursor_bytes(c);
    let pos = cursor_pos(c) as int;
    if pos >= data.len() {
        Seq::empty()
    } else {
        data.skip(pos)
    }
}

/// What one chunk of input contributes to a capped line: how many of its
/// bytes to keep, whether the line overflows the cap, and where the line
/// ends in it, if it does.
pub struct ChunkStep {
    pub take: usize,
    pub oversized: bool,
    pub newline: Option<usize>,
}

/// Decide what to do with a chunk of input when `held` bytes of the line
/// are already kept: the line runs to the first line feed of the chunk (or
/// its end), and as much of it is kept as the cap still allows.
pub fn capped_step(held: usize, available: &[u8], max_bytes: usize) -> (r: ChunkStep)
    ensures
        ({
            let k = line_end(available@);
            let room = if held <= max_bytes { max_bytes - held } else { 0 };
            &&& r.newline == if k < available@.len() { Some(k as usize) } else { None }
            &&& r.take == if room < k { room } else { k }
            &&& r.oversized == (k > room)
        }),
{
    let mut k: usize = 0;
    assert(available@.skip(0) =~= available@);
    while k < available.len() && available[k] != 10u8
        invariant
            k <= available@.len(),
            line_end(available@) == k + line_end(available@.skip(k as int)),
        decreases available@.len() - k,
    {
        proof {
            assert(available@.skip(k as int).drop_first() =~= available@.skip(k + 1));
        }
        k = k + 1;
    }
    proof {
        if k == available@.len() {
            assert(available@.skip(k as int).len() == 0);
        }
    }
    let newline = if k < available.len() { Some(k) } else { None };
    let room = max_bytes.saturating_sub(held);
    let take = if room < k { room } else { k };
    ChunkStep { take, oversized: k > room, newline }
}

/// Read one newline-terminated record from `reader`, keeping at most
/// `max_bytes` of it.
///
/// A client that sends a very long line with no newline cannot make this
/// buffer more than `max_bytes`: the excess, up to the next newline, is read
/// past so parsing can resume cleanly on the next record.
///
/// Returns `Ok(None)` at end of input. Otherwise returns the kept bytes of
/// the line (without its newline) and whether the line was longer than
/// `max_bytes`; the reader is left after the newline, or at the end.
pub fn read_capped_line(reader: &mut Cursor<Vec<u8>>, max_bytes: usize) -> (r: std::io::Result<
    Option<(Vec<u8>, bool)>,
>)
    ensures
        ({
            let rest = cursor_rest(*old(reader));
            let k = line_end(rest);
            &&& cursor_bytes(*final(reader)) == cursor_bytes(*old(reader))
            &&& r is Ok
            &&& rest.len() == 0 ==> r->Ok_0 is None && cursor_pos(*final(reader)) == cursor_pos(
                *old(reader),
            )
            &&& rest.len() > 0 ==> match r {
                Ok(Some((line, oversized))) => {
                    &&& line@ == rest.take(if k < max_bytes { k } else { max_bytes as int })
                    &&& oversized == (k > max_bytes)
                    &&& cursor_pos(*final(reader)) == cursor_pos(*old(reader)) + if k < rest.len() {
                        k + 1
                    } else {
                        rest.len() as int
                    }
                },
                _ => false,
            }
        }),
{
    let data = cursor_get_ref(reader);
    let pos = cursor_position(reader);
    let len = data.len();
    if pos >= len as u64 {
        return Ok(None);
    }
    let start = pos as usize;
    let mut available: Vec<u8> = Vec::new();
    let mut i = start;
    while i < len
        invariant
            start <= i <= len,
            len == data@.len(),
            available@ == data@.subrange(start as int, i as int),
        decreases len - i,
    {
        available.push(data[i]);
        assert(data@.subrange(start as int, i + 1) =~= data@.subrange(start as int, i as int).push(
            data@[i as int],
        ));
        i = i + 1;
    }
    proof {
        assert(available@ =~= cursor_rest(*reader));
    }
    let step = capped_step(0, available.as_slice(), max_bytes);
    proof {
        lemma_line_end_bound(available@);
    }
    let mut line: Vec<u8> = Vec::new();
    let mut j: usize = 0;
    while j < step.take
        invariant
            j <= step.take,
            step.take <= available@.len(),
            line@ == available@.take(j as int),
        decreases step.take - j,
    {
        line.push(available[j]);
        assert(available@.take(j + 1) =~= available@.take(j as int).push(available@[j as int]));
        j = j + 1;
    }
    proof {
        lemma_line_end_bound(available@);
    }
    let consumed = match step.newline {
        Some(k) => k + 1,
        None => available.len(),
    };
    cursor_set_position(reader, pos + consumed as u64);
    Ok(Some((line, step.oversized)))
}

/// The line ends inside the bytes or at their end.
pub proof fn lemma_line_end_bound(s: Seq<u8>)
    ensures
        0 <= line_end(s) <= s.len(),
        line_end(s) < s.len() ==> s[line_end(s)] == 10u8,
    decreases s.len(),
{
    if s.len() > 0 && s[0] != 10u8 {
        lemma_line_end_bound(s.drop_first());
    }
}

} // verus!
