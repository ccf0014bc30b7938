use vstd::prelude::*;
use vstd::bytes::*;
use vstd::utf8::encode_utf8;
use vstd::string::StrSliceExecFns;
use vstd::slice::{slice_subrange, slice_to_vec};
use crate::commands::{Command, NetworkOperation};
use crate::decimal::{ascii_bytes, decimal, decimal_bytes};

verus! {

broadcast use vstd::string::group_string_axioms;

/// Size of a record header: type, process id, payload length.
pub const RECORD_HEADER_LEN: usize = 11;

/// Largest payload a record can carry (its length field is a `u16`).
pub const MAX_RECORD_PAYLOAD: usize = 65535;

/// One record of a batch: `[ msg_type: u8 ][ process_id: u64 LE ][ len: u16 LE ][ payload ]`.
pub struct Record {
    pub msg_type: u8,
    pub process_id: u64,
    pub payload: Vec<u8>,
}

/// The bytes of one record.
pub open spec fn record_bytes(msg_type: u8, pid: u64, payload: Seq<u8>) -> Seq<u8> {
    seq![msg_type] + spec_u64_to_le_bytes(pid) + spec_u16_to_le_bytes(payload.len() as u16) + payload
}

/// The complete records at the front of `b`, in order; reading stops at the
/// first record that is cut short.
pub open spec fn spec_records(b: Seq<u8>) -> Seq<(u8, u64, Seq<u8>)>
    decreases b.len(),
{
    if b.len() < 11 {
        seq![]
    } else {
        let len = spec_u16_from_le_bytes(b.subrange(9, 11)) as int;
        if b.len() < 11 + len {
            seq![]
        } else {
            seq![(b[0], spec_u64_from_le_bytes(b.subrange(1, 9)), b.subrange(11, 11 + len))]
                + spec_records(b.skip(11 + len))
        }
    }
}

pub open spec fn record_view(r: Record) -> (u8, u64, Seq<u8>) {
    (r.msg_type, r.process_id, r.payload@)
}

/// Decoding a record followed by anything gives that record first.
pub proof fn lemma_records_of_record(msg_type: u8, pid: u64, payload: Seq<u8>, rest: Seq<u8>)
    requires
        payload.len() <= 65535,
    ensures
        spec_records(record_bytes(msg_type, pid, payload) + rest)
            == seq![(msg_type, pid, payload)] + spec_records(rest),
{
    lemma_auto_spec_u64_to_from_le_bytes();
    lemma_auto_spec_u16_to_from_le_bytes();
    let b = record_bytes(msg_type, pid, payload) + rest;
    let h = spec_u64_to_le_bytes(pid);
    let l = spec_u16_to_le_bytes(payload.len() as u16);
    assert(b.subrange(1, 9) =~= h);
    assert(b.subrange(9, 11) =~= l);
    assert(b.subrange(11, 11 + payload.len() as int) =~= payload);
    assert(b.skip(11 + payload.len() as int) =~= rest);
}

/// Reads the complete records at the front of `data`.
pub fn parse_records(data: &[u8]) -> (v: Vec<Record>)
    ensures
        v@.map_values(|r: Record| record_view(r)) == spec_records(data@),
{
    let mut v: Vec<Record> = Vec::new();
    let mut pos: usize = 0;
    assert(data@.skip(0) =~= data@);
    assert(v@.map_values(|r: Record| record_view(r)) + spec_records(data@)
        =~= spec_records(data@));
    loop
        invariant
            pos <= data@.len(),
            v@.map_values(|r: Record| record_view(r)) + spec_records(data@.skip(pos as int))
                == spec_records(data@),
        ensures
            v@.map_values(|r: Record| record_view(r)) == spec_records(data@),
        decreases data@.len() - pos,
    {
        let ghost rest = data@.skip(pos as int);
        if data.len() - pos < RECORD_HEADER_LEN {
            assert(v@.map_values(|r: Record| record_view(r)) + spec_records(rest)
                =~= v@.map_values(|r: Record| record_view(r)));
            break;
        }
        let len = u16_from_le_bytes(slice_subrange(data, pos + 9, pos + 11)) as usize;
        assert(rest.subrange(9, 11) =~= data@.subrange(pos + 9, pos + 11));
        if data.len() - pos - RECORD_HEADER_LEN < len {
            assert(v@.map_values(|r: Record| record_view(r)) + spec_records(rest)
                =~= v@.map_values(|r: Record| record_view(r)));
            break;
        }
        let pid = u64_from_le_bytes(slice_subrange(data, pos + 1, pos + 9));
        assert(rest.subrange(1, 9) =~= data@.subrange(pos + 1, pos + 9));
        let payload = slice_to_vec(slice_subrange(data, pos + 11, pos + 11 + len));
        assert(rest.subrange(11, 11 + len) =~= payload@);
        let r = Record { msg_type: data[pos], process_id: pid, payload };
        let ghost before = v@.map_values(|r: Record| record_view(r));
        v.push(r);
        assert(v@.map_values(|r: Record| record_view(r)) =~= before.push(record_view(r)));
        assert(rest.skip(11 + len) =~= data@.skip(pos + 11 + len));
        pos = pos + RECORD_HEADER_LEN + len;
    }
    v
}

/// The bytes of one record.
pub fn encode_record(msg_type: u8, pid: u64, payload: &[u8]) -> (v: Vec<u8>)
    requires
        payload@.len() <= 65535,
    ensures
        v@ == record_bytes(msg_type, pid, payload@),
{
    let mut v: Vec<u8> = Vec::new();
    v.push(msg_type);
    let mut p = u64_to_le_bytes(pid);
    v.append(&mut p);
    let mut l = u16_to_le_bytes(payload.len() as u16);
    v.append(&mut l);
    v.extend_from_slice(payload);
    assert(v@ =~= record_bytes(msg_type, pid, payload@));
    v
}

/// Why a command could not be written as a record.
pub enum RecordError {
    /// The payload does not fit the 16-bit length field.
    PayloadTooLong,
    /// A network request travels in an outgoing frame, not in a record.
    NotARecordCommand,
}

/// `clock:`
pub open spec fn clock_prefix() -> Seq<u8> {
    seq![99u8, 108u8, 111u8, 99u8, 107u8, 58u8]
}

/// `dir:`
pub open spec fn dir_prefix() -> Seq<u8> {
    seq![100u8, 105u8, 114u8, 58u8]
}

/// Type, process id and payload of the record that stands for `cmd`;
/// `None` for a network request.
pub open spec fn command_record(cmd: Command) -> Option<(u8, u64, Seq<u8>)> {
    match cmd {
        Command::Clock(delta) => Some((0u8, 0u64, clock_prefix() + ascii_bytes(decimal(delta as nat)))),
        Command::Init { wasm_bytes, dir_path, .. } => Some((2u8, u64::MAX, match dir_path {
            Some(d) => dir_prefix() + encode_utf8(d@) + seq![0u8] + wasm_bytes@,
            None => wasm_bytes@,
        })),
        Command::FDMsg(pid, data) => Some((1u8, pid, data@)),
        Command::Ftp(pid, text) => Some((4u8, pid, encode_utf8(text@))),
        Command::NetworkIn(pid, port, data) => Some((5u8, pid, spec_u16_to_le_bytes(port) + data@)),
        Command::NetworkOut(..) => None,
    }
}

/// The payload of the record for `cmd`, which must not be a network request.
fn record_payload(cmd: &Command) -> (r: (u8, u64, Vec<u8>))
    requires
        command_record(*cmd) is Some,
    ensures
        command_record(*cmd) == Some((r.0, r.1, r.2@)),
{
    match cmd {
        Command::Clock(delta) => {
            let mut p: Vec<u8> = vec![99u8, 108u8, 111u8, 99u8, 107u8, 58u8];
            let mut d = decimal_bytes(*delta);
            p.append(&mut d);
            (0u8, 0u64, p)
        },
        Command::Init { wasm_bytes, dir_path, .. } => {
            let mut p: Vec<u8> = Vec::new();
            match dir_path {
                Some(d) => {
                    p.push(100u8);
                    p.push(105u8);
                    p.push(114u8);
                    p.push(58u8);
                    p.extend_from_slice(d.as_str().as_bytes());
                    p.push(0u8);
                },
                None => {},
            }
            p.extend_from_slice(wasm_bytes.as_slice());
            proof {
                match dir_path {
                    Some(d) => {
                        assert(p@ =~= dir_prefix() + encode_utf8(d@) + seq![0u8] + wasm_bytes@);
                    },
                    None => {
                        assert(p@ =~= wasm_bytes@);
                    },
                }
            }
            (2u8, u64::MAX, p)
        },
        Command::FDMsg(pid, data) => (1u8, *pid, data.clone()),
        Command::Ftp(pid, text) => (4u8, *pid, text.as_str().as_bytes_vec()),
        Command::NetworkIn(pid, port, data) => {
            let mut p = u16_to_le_bytes(*port);
            p.extend_from_slice(data.as_slice());
            (5u8, *pid, p)
        },
        Command::NetworkOut(..) => {
            proof {
                assert(false);
            }
            (0u8, 0u64, Vec::new())
        },
    }
}

/// Writes the record for `cmd`: a clock advance as `clock:<delta>` (type 0,
/// pid 0), an init as its optional `dir:<path>\0` prefix and the module bytes
/// (type 2, pid `u64::MAX`), process input as is (type 1), a file-transfer
/// command as its UTF-8 text (type 4), network data as its little-endian port
/// then the bytes (type 5).
pub fn write_record(cmd: &Command) -> (r: Result<Vec<u8>, RecordError>)
    ensures
        *cmd matches Command::Init { wasm_bytes, dir_path: None, .. } ==> (wasm_bytes@.len() <= 65535
            ==> (r matches Ok(v) && v@ == record_bytes(2, u64::MAX, wasm_bytes@))),
        command_record(*cmd) is None <==> r matches Err(RecordError::NotARecordCommand),
        command_record(*cmd) matches Some((t, pid, payload)) ==> (
            if payload.len() > 65535 {
                r matches Err(RecordError::PayloadTooLong)
            } else {
                r matches Ok(v) && v@ == record_bytes(t, pid, payload)
            }),
{
    if let Command::NetworkOut(..) = cmd {
        return Err(RecordError::NotARecordCommand);
    }
    let (t, pid, payload) = record_payload(cmd);
    if payload.len() > MAX_RECORD_PAYLOAD {
        return Err(RecordError::PayloadTooLong);
    }
    Ok(encode_record(t, pid, payload.as_slice()))
}

/// The records of `rs`, one after another.
pub open spec fn records_concat(rs: Seq<(u8, u64, Seq<u8>)>) -> Seq<u8>
    decreases rs.len(),
{
    if rs.len() == 0 {
        seq![]
    } else {
        record_bytes(rs[0].0, rs[0].1, rs[0].2) + records_concat(rs.drop_first())
    }
}

/// Reading a run of records gives back each record, in order, as written.
pub proof fn lemma_records_read_back(rs: Seq<(u8, u64, Seq<u8>)>)
    requires
        forall|i: int| 0 <= i < rs.len() ==> (#[trigger] rs[i]).2.len() <= 65535,
    ensures
        spec_records(records_concat(rs)) == rs,
    decreases rs.len(),
{
    if rs.len() == 0 {
        assert(spec_records(records_concat(rs)) =~= rs);
    } else {
        let t = rs.drop_first();
        assert forall|i: int| 0 <= i < t.len() implies (#[trigger] t[i]).2.len() <= 65535 by {
            assert(t[i] == rs[i + 1]);
        }
        lemma_records_read_back(t);
        assert(rs[0].2.len() <= 65535);
        lemma_records_of_record(rs[0].0, rs[0].1, rs[0].2, records_concat(t));
        assert(seq![rs[0]] + t =~= rs);
    }
}

/// Message type of a network request in an outgoing batch.
pub const NETWORK_OUT_TYPE: u8 = 5;

/// The bytes of a network request in an outgoing batch:
/// `[ 5 ][ process_id: u64 LE ][ len: u32 LE ][ encoded operation ]`.
pub open spec fn network_out_bytes(pid: u64, op: Seq<u8>) -> Seq<u8> {
    seq![5u8] + spec_u64_to_le_bytes(pid) + spec_u32_to_le_bytes(op.len() as u32) + op
}

/// The network requests in the data of an outgoing batch, in order: a byte
/// that is not type 5 is skipped, and reading stops at a request that is cut
/// short.
pub open spec fn spec_network_outs(b: Seq<u8>) -> Seq<(u64, Seq<u8>)>
    decreases b.len(),
{
    if b.len() == 0 {
        seq![]
    } else if b[0] != 5 {
        spec_network_outs(b.skip(1))
    } else if b.len() < 13 {
        seq![]
    } else {
        let len = spec_u32_from_le_bytes(b.subrange(9, 13)) as int;
        if b.len() - 13 < len {
            seq![]
        } else {
            seq![(spec_u64_from_le_bytes(b.subrange(1, 9)), b.subrange(13, 13 + len))]
                + spec_network_outs(b.skip(13 + len))
        }
    }
}

pub fn encode_network_out(pid: u64, op: &[u8]) -> (v: Vec<u8>)
    requires
        op@.len() <= u32::MAX,
    ensures
        v@ == network_out_bytes(pid, op@),
{
    let mut v: Vec<u8> = Vec::new();
    v.push(NETWORK_OUT_TYPE);
    let mut p = u64_to_le_bytes(pid);
    v.append(&mut p);
    let mut l = u32_to_le_bytes(op.len() as u32);
    v.append(&mut l);
    v.extend_from_slice(op);
    assert(v@ =~= network_out_bytes(pid, op@));
    v
}

/// The network requests in the data of an outgoing batch.
pub fn parse_network_outs(data: &[u8]) -> (v: Vec<(u64, Vec<u8>)>)
    ensures
        v@.map_values(|x: (u64, Vec<u8>)| (x.0, x.1@)) == spec_network_outs(data@),
{
    let mut v: Vec<(u64, Vec<u8>)> = Vec::new();
    let mut pos: usize = 0;
    assert(data@.skip(0) =~= data@);
    assert(v@.map_values(|x: (u64, Vec<u8>)| (x.0, x.1@)) + spec_network_outs(data@)
        =~= spec_network_outs(data@));
    loop
        invariant
            pos <= data@.len(),
            v@.map_values(|x: (u64, Vec<u8>)| (x.0, x.1@)) + spec_network_outs(data@.skip(pos as int))
                == spec_network_outs(data@),
        ensures
            v@.map_values(|x: (u64, Vec<u8>)| (x.0, x.1@)) == spec_network_outs(data@),
        decreases data@.len() - pos,
    {
        let ghost rest = data@.skip(pos as int);
        let ghost before = v@.map_values(|x: (u64, Vec<u8>)| (x.0, x.1@));
        if pos == data.len() {
            assert(before + spec_network_outs(rest) =~= before);
            break;
        }
        if data[pos] != NETWORK_OUT_TYPE {
            assert(rest.skip(1) =~= data@.skip(pos + 1));
            pos = pos + 1;
            continue;
        }
        if data.len() - pos < 13 {
            assert(before + spec_network_outs(rest) =~= before);
            break;
        }
        let len = u32_from_le_bytes(slice_subrange(data, pos + 9, pos + 13)) as usize;
        assert(rest.subrange(9, 13) =~= data@.subrange(pos + 9, pos + 13));
        if data.len() - pos - 13 < len {
            assert(before + spec_network_outs(rest) =~= before);
            break;
        }
        let pid = u64_from_le_bytes(slice_subrange(data, pos + 1, pos + 9));
        assert(rest.subrange(1, 9) =~= data@.subrange(pos + 1, pos + 9));
        let op = slice_to_vec(slice_subrange(data, pos + 13, pos + 13 + len));
        assert(rest.subrange(13, 13 + len) =~= op@);
        v.push((pid, op));
        assert(v@.map_values(|x: (u64, Vec<u8>)| (x.0, x.1@)) =~= before.push((pid, op@)));
        assert(rest.skip(13 + len) =~= data@.skip(pos + 13 + len));
        pos = pos + 13 + len;
    }
    v
}

/// The requests of `ms`, one after another.
pub open spec fn network_outs_concat(ms: Seq<(u64, Seq<u8>)>) -> Seq<u8>
    decreases ms.len(),
{
    if ms.len() == 0 {
        seq![]
    } else {
        network_out_bytes(ms[0].0, ms[0].1) + network_outs_concat(ms.drop_first())
    }
}

/// The data of an outgoing batch: the requests one after another.
pub fn encode_network_outs(ms: &Vec<(u64, Vec<u8>)>) -> (v: Vec<u8>)
    requires
        forall|i: int| 0 <= i < ms@.len() ==> (#[trigger] ms@[i]).1@.len() <= u32::MAX,
    ensures
        v@ == network_outs_concat(ms@.map_values(|x: (u64, Vec<u8>)| (x.0, x.1@))),
{
    let ghost all = ms@.map_values(|x: (u64, Vec<u8>)| (x.0, x.1@));
    let mut v: Vec<u8> = Vec::new();
    let mut i = ms.len();
    // Built back to front so that each step prepends one request.
    let mut parts: Vec<Vec<u8>> = Vec::new();
    let mut j: usize = 0;
    while j < ms.len()
        invariant
            j <= ms@.len(),
            parts@.len() == j,
            forall|k: int| 0 <= k < ms@.len() ==> (#[trigger] ms@[k]).1@.len() <= u32::MAX,
            forall|k: int| 0 <= k < j ==> (#[trigger] parts@[k])@ == network_out_bytes(ms@[k].0, ms@[k].1@),
        decreases ms@.len() - j,
    {
        parts.push(encode_network_out(ms[j].0, ms[j].1.as_slice()));
        j = j + 1;
    }
    assert(all.skip(i as int) =~= Seq::<(u64, Seq<u8>)>::empty());
    while i > 0
        invariant
            i <= ms@.len(),
            parts@.len() == ms@.len(),
            all == ms@.map_values(|x: (u64, Vec<u8>)| (x.0, x.1@)),
            forall|k: int| 0 <= k < ms@.len() ==> (#[trigger] parts@[k])@ == network_out_bytes(ms@[k].0, ms@[k].1@),
            v@ == network_outs_concat(all.skip(i as int)),
        decreases i,
    {
        i = i - 1;
        let mut p = parts[i].clone();
        p.append(&mut v);
        v = p;
        assert(all.skip(i as int).drop_first() =~= all.skip(i + 1));
        assert(all.skip(i as int)[0] == (ms@[i as int].0, ms@[i as int].1@));
    }
    assert(all.skip(0) =~= all);
    v
}

/// Reading the data of an outgoing batch gives back each request, in order.
pub proof fn lemma_network_outs_read_back(ms: Seq<(u64, Seq<u8>)>)
    requires
        forall|i: int| 0 <= i < ms.len() ==> (#[trigger] ms[i]).1.len() <= u32::MAX,
    ensures
        spec_network_outs(network_outs_concat(ms)) == ms,
    decreases ms.len(),
{
    if ms.len() == 0 {
        assert(spec_network_outs(network_outs_concat(ms)) =~= ms);
    } else {
        let t = ms.drop_first();
        assert forall|i: int| 0 <= i < t.len() implies (#[trigger] t[i]).1.len() <= u32::MAX by {
            assert(t[i] == ms[i + 1]);
        }
        lemma_network_outs_read_back(t);
        lemma_auto_spec_u64_to_from_le_bytes();
        lemma_auto_spec_u32_to_from_le_bytes();
        let op = ms[0].1;
        assert(op.len() <= u32::MAX);
        let b = network_outs_concat(ms);
        assert(b.subrange(1, 9) =~= spec_u64_to_le_bytes(ms[0].0));
        assert(b.subrange(9, 13) =~= spec_u32_to_le_bytes(op.len() as u32));
        assert(b.subrange(13, 13 + op.len() as int) =~= op);
        assert(b.skip(13 + op.len() as int) =~= network_outs_concat(t));
        assert(seq![ms[0]] + t =~= ms);
    }
}

} // verus!
