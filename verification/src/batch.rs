use vstd::prelude::*;
use vstd::bytes::*;
use vstd::slice::{slice_subrange, slice_to_vec};
use crate::clock::IdCounter;
use crate::record::{encode_network_outs, network_outs_concat};

verus! {

/// Which way a batch travels.
#[derive(Clone, Copy, Debug, PartialEq, Eq, Structural)]
pub enum BatchDirection {
    /// Consensus to runtime.
    Incoming,
    /// Runtime to consensus.
    Outgoing,
}

/// A numbered batch of records.
pub struct Batch {
    pub number: u64,
    pub direction: BatchDirection,
    pub data: Vec<u8>,
}

/// Size of a frame header: batch number, direction, data length.
pub const FRAME_HEADER_LEN: usize = 17;

pub open spec fn direction_byte(d: BatchDirection) -> u8 {
    match d {
        BatchDirection::Incoming => 0,
        BatchDirection::Outgoing => 1,
    }
}

pub open spec fn byte_direction(b: u8) -> BatchDirection {
    if b == 0 {
        BatchDirection::Incoming
    } else {
        BatchDirection::Outgoing
    }
}

pub open spec fn batch_view(b: Batch) -> (u64, BatchDirection, Seq<u8>) {
    (b.number, b.direction, b.data@)
}

/// The bytes of a batch on the wire and in the history file:
/// `[ number: u64 LE ][ direction: u8 ][ data length: u64 LE ][ data ]`.
pub open spec fn frame_bytes(number: u64, dir: u8, data: Seq<u8>) -> Seq<u8> {
    spec_u64_to_le_bytes(number) + seq![dir] + spec_u64_to_le_bytes(data.len() as u64) + data
}

/// The complete, well-formed frames at the front of `b` whose number is above
/// `since`, in order; reading stops at the first frame that is cut short or
/// names no direction.
pub open spec fn spec_frames_since(b: Seq<u8>, since: int) -> Seq<(u64, BatchDirection, Seq<u8>)>
    decreases b.len(),
{
    if b.len() < 17 || b[8] > 1 {
        seq![]
    } else {
        let len = spec_u64_from_le_bytes(b.subrange(9, 17)) as int;
        if b.len() - 17 < len {
            seq![]
        } else {
            let number = spec_u64_from_le_bytes(b.subrange(0, 8));
            let rest = spec_frames_since(b.skip(17 + len), since);
            if number > since {
                seq![(number, byte_direction(b[8]), b.subrange(17, 17 + len))] + rest
            } else {
                rest
            }
        }
    }
}

/// All complete, well-formed frames at the front of `b`.
pub open spec fn spec_frames(b: Seq<u8>) -> Seq<(u64, BatchDirection, Seq<u8>)> {
    spec_frames_since(b, -1)
}

pub fn direction_to_byte(d: BatchDirection) -> (b: u8)
    ensures
        b == direction_byte(d),
{
    match d {
        BatchDirection::Incoming => 0,
        BatchDirection::Outgoing => 1,
    }
}

/// The frame of `batch`.
pub fn encode_batch(batch: &Batch) -> (v: Vec<u8>)
    ensures
        v@ == frame_bytes(batch.number, direction_byte(batch.direction), batch.data@),
{
    let mut v = u64_to_le_bytes(batch.number);
    v.push(direction_to_byte(batch.direction));
    let mut l = u64_to_le_bytes(batch.data.len() as u64);
    v.append(&mut l);
    v.extend_from_slice(batch.data.as_slice());
    assert(v@ =~= frame_bytes(batch.number, direction_byte(batch.direction), batch.data@));
    v
}

/// Reading a frame followed by anything gives that frame first.
pub proof fn lemma_frames_of_frame(number: u64, dir: BatchDirection, data: Seq<u8>, rest: Seq<u8>, since: int)
    requires
        data.len() <= u64::MAX,
    ensures
        spec_frames_since(frame_bytes(number, direction_byte(dir), data) + rest, since) == (
            if number > since {
                seq![(number, dir, data)] + spec_frames_since(rest, since)
            } else {
                spec_frames_since(rest, since)
            }),
{
    lemma_auto_spec_u64_to_from_le_bytes();
    let b = frame_bytes(number, direction_byte(dir), data) + rest;
    assert(b.subrange(0, 8) =~= spec_u64_to_le_bytes(number));
    assert(b.subrange(9, 17) =~= spec_u64_to_le_bytes(data.len() as u64));
    assert(b[8] == direction_byte(dir));
    assert(b.subrange(17, 17 + data.len() as int) =~= data);
    assert(b.skip(17 + data.len() as int) =~= rest);
    assert(byte_direction(direction_byte(dir)) == dir);
}

/// The batches of the history bytes `b` whose number is above `since`, in the
/// order they were written.
pub fn batches_since(b: &[u8], since: u64) -> (v: Vec<Batch>)
    ensures
        v@.map_values(|x: Batch| batch_view(x)) == spec_frames_since(b@, since as int),
{
    let mut v: Vec<Batch> = Vec::new();
    let mut pos: usize = 0;
    assert(b@.skip(0) =~= b@);
    assert(v@.map_values(|x: Batch| batch_view(x)) + spec_frames_since(b@, since as int)
        =~= spec_frames_since(b@, since as int));
    loop
        invariant
            pos <= b@.len(),
            v@.map_values(|x: Batch| batch_view(x)) + spec_frames_since(b@.skip(pos as int), since as int)
                == spec_frames_since(b@, since as int),
        ensures
            v@.map_values(|x: Batch| batch_view(x)) == spec_frames_since(b@, since as int),
        decreases b@.len() - pos,
    {
        let ghost rest = b@.skip(pos as int);
        let ghost before = v@.map_values(|x: Batch| batch_view(x));
        if b.len() - pos < FRAME_HEADER_LEN || b[pos + 8] > 1 {
            assert(before + spec_frames_since(rest, since as int) =~= before);
            break;
        }
        let len = u64_from_le_bytes(slice_subrange(b, pos + 9, pos + 17));
        assert(rest.subrange(9, 17) =~= b@.subrange(pos + 9, pos + 17));
        if ((b.len() - pos - FRAME_HEADER_LEN) as u64) < len {
            assert(before + spec_frames_since(rest, since as int) =~= before);
            break;
        }
        let len = len as usize;
        let number = u64_from_le_bytes(slice_subrange(b, pos, pos + 8));
        assert(rest.subrange(0, 8) =~= b@.subrange(pos as int, pos + 8));
        assert(rest.skip(17 + len) =~= b@.skip(pos + 17 + len));
        if number > since {
            let data = slice_to_vec(slice_subrange(b, pos + 17, pos + 17 + len));
            assert(rest.subrange(17, 17 + len) =~= data@);
            let direction = if b[pos + 8] == 0 { BatchDirection::Incoming } else { BatchDirection::Outgoing };
            let x = Batch { number, direction, data };
            v.push(x);
            assert(v@.map_values(|x: Batch| batch_view(x)) =~= before.push(batch_view(x)));
        }
        pos = pos + FRAME_HEADER_LEN + len;
    }
    v
}

/// The frames of `bs`, one after another.
pub open spec fn frames_concat(bs: Seq<(u64, BatchDirection, Seq<u8>)>) -> Seq<u8>
    decreases bs.len(),
{
    if bs.len() == 0 {
        seq![]
    } else {
        frame_bytes(bs[0].0, direction_byte(bs[0].1), bs[0].2) + frames_concat(bs.drop_first())
    }
}

/// The batches of `bs` whose number is above `since`, in order.
pub open spec fn numbered_above(bs: Seq<(u64, BatchDirection, Seq<u8>)>, since: int) -> Seq<(u64, BatchDirection, Seq<u8>)>
    decreases bs.len(),
{
    if bs.len() == 0 {
        seq![]
    } else if bs[0].0 > since {
        seq![bs[0]] + numbered_above(bs.drop_first(), since)
    } else {
        numbered_above(bs.drop_first(), since)
    }
}

/// Reading back a history of saved batches gives exactly the saved batches
/// numbered above the one asked for, in the order they were saved.
pub proof fn lemma_history_read_back(bs: Seq<(u64, BatchDirection, Seq<u8>)>, since: int)
    requires
        forall|i: int| 0 <= i < bs.len() ==> (#[trigger] bs[i]).2.len() <= u64::MAX,
    ensures
        spec_frames_since(frames_concat(bs), since) == numbered_above(bs, since),
    decreases bs.len(),
{
    if bs.len() == 0 {
        assert(frames_concat(bs).len() == 0);
    } else {
        let t = bs.drop_first();
        assert forall|i: int| 0 <= i < t.len() implies (#[trigger] t[i]).2.len() <= u64::MAX by {
            assert(t[i] == bs[i + 1]);
        }
        lemma_history_read_back(t, since);
        let b0 = bs[0];
        assert(b0.2.len() <= u64::MAX);
        lemma_frames_of_frame(b0.0, b0.1, b0.2, frames_concat(t), since);
    }
}

/// The runtime's next outgoing batch: it carries the encoded network
/// requests `requests` (process id, request bytes) and takes the next
/// number of `numbers`, so outgoing batches are numbered in the order they
/// are sent.
pub fn outgoing_batch(numbers: &mut IdCounter, requests: &Vec<(u64, Vec<u8>)>) -> (b: Batch)
    requires
        forall|i: int| 0 <= i < requests@.len() ==> (#[trigger] requests@[i]).1@.len() <= u32::MAX,
    ensures
        b.number == old(numbers).spec_next(),
        final(numbers).spec_next() == (old(numbers).spec_next() + 1) % 0x1_0000_0000_0000_0000,
        b.direction == BatchDirection::Outgoing,
        b.data@ == network_outs_concat(requests@.map_values(|x: (u64, Vec<u8>)| (x.0, x.1@))),
{
    let number = numbers.take_next();
    Batch { number, direction: BatchDirection::Outgoing, data: encode_network_outs(requests) }
}

} // verus!
