use vstd::prelude::*;
use vstd::bytes::*;
use vstd::utf8::{valid_utf8, decode_utf8, encode_utf8};
use crate::decimal::{parse_i32, parse_u64, spec_parse_i32, spec_parse_u64};
use crate::text::{chars_of, has_prefix_at, strict_text, trim, trim_bounds};
use crate::fd_table::{FDEntry, FDTable, MAX_FDS, fd_in_range};
use crate::record::{Record, RECORD_HEADER_LEN, clock_prefix, command_record, lemma_records_of_record, record_bytes, record_view, spec_records};
use crate::commands::Command;
use crate::decimal::{ascii_bytes, decimal, is_digit, lemma_decimal_digits, lemma_decimal_len, lemma_parse_u64_decimal};
use crate::text::{is_ws, lemma_trim_digits, lemma_trim_unpadded};
use vstd::utf8::{encode_utf8_valid_utf8, encode_utf8_decode_utf8, is_ascii_chars, is_ascii_chars_encode_utf8};
use vstd::slice::{slice_subrange, slice_to_vec};

verus! {

broadcast use vstd::string::group_string_axioms;

/// Names what `String::from_utf8_lossy` gives for `bytes`.
pub uninterp spec fn utf8_lossy(bytes: Seq<u8>) -> Seq<char>;

/// `String::from_utf8_lossy`: the text of `bytes` with every invalid
/// sequence replaced by U+FFFD. Claimed: the result is `utf8_lossy(bytes)`,
/// and for valid UTF-8 it is the plain decoding.
#[verifier::external_body]
fn lossy_text(bytes: &[u8]) -> (s: String)
    ensures
        s@ == utf8_lossy(bytes@),
        valid_utf8(bytes@) ==> s@ == decode_utf8(bytes@),
{
    String::from_utf8_lossy(bytes).into_owned()
}

pub open spec fn clock_marker() -> Seq<char> {
    seq!['c', 'l', 'o', 'c', 'k', ':']
}

pub open spec fn body_marker() -> Seq<char> {
    seq![',', 'b', 'o', 'd', 'y', ':']
}

pub open spec fn fd_marker() -> Seq<char> {
    seq!['f', 'd', ':']
}

/// The clock advance a clock message gives: `clock:` then a `u64`,
/// whitespace around it allowed.
pub open spec fn clock_of(t: Seq<char>) -> Option<u64> {
    if t.len() >= 6 && t.take(6) == clock_marker() {
        spec_parse_u64(trim(t.skip(6)))
    } else {
        None
    }
}

/// `,body:` starts at `k` in `t`.
pub open spec fn marker_at(t: Seq<char>, k: int) -> bool {
    0 <= k && k + 6 <= t.len() && t.subrange(k, k + 6) == body_marker()
}

/// The descriptor and body of an input message `fd:<n>,body:<text>`: the text
/// holds `,body:` exactly once, before it stands `fd:` and an `i32`, and the
/// body is the rest; both trimmed of whitespace.
pub open spec fn fd_update_of(t: Seq<char>) -> Option<(i32, Seq<char>)> {
    if exists|k: int| marker_at(t, k) && (forall|j: int| #[trigger] marker_at(t, j) ==> j == k) {
        let k = choose|k: int| marker_at(t, k) && (forall|j: int| #[trigger] marker_at(t, j) ==> j == k);
        let head = t.take(k);
        if head.len() >= 3 && head.take(3) == fd_marker() {
            match spec_parse_i32(trim(head.skip(3))) {
                Some(fd) => Some((fd, trim(t.skip(k + 6)))),
                None => None,
            }
        } else {
            None
        }
    } else {
        None
    }
}

/// Reads a clock message.
pub fn parse_clock_text(text: &str) -> (r: Option<u64>)
    ensures
        r == clock_of(text@),
{
    let t = chars_of(text);
    let marker: Vec<char> = vec!['c', 'l', 'o', 'c', 'k', ':'];
    assert(marker@ =~= clock_marker());
    if !has_prefix_at(&t, 0, t.len(), &marker) {
        assert(t@.subrange(0, 6) =~= t@.take(6));
        return None;
    }
    assert(t@.subrange(0, 6) =~= t@.take(6));
    let (a, b) = trim_bounds(&t, 6, t.len());
    assert(t@.subrange(6, t@.len() as int) =~= t@.skip(6));
    parse_u64(&t, a, b)
}

/// Reads an input message `fd:<n>,body:<text>`, giving the descriptor and
/// the UTF-8 bytes of the body.
pub fn parse_fd_update_text(text: &str) -> (r: Option<(i32, Vec<u8>)>)
    ensures
        match fd_update_of(text@) {
            Some((fd, body)) => r matches Some((f, b)) && f == fd && b@ == encode_utf8(body),
            None => r is None,
        },
{
    let t = chars_of(text);
    let marker: Vec<char> = vec![',', 'b', 'o', 'd', 'y', ':'];
    assert(marker@ =~= body_marker());
    let mut count: usize = 0;
    let mut first: usize = 0;
    let mut i: usize = 0;
    while i < t.len()
        invariant
            i <= t@.len(),
            t@ == text@,
            marker@ == body_marker(),
            count <= i,
            count == 0 ==> forall|j: int| 0 <= j < i ==> !marker_at(t@, j),
            count >= 1 ==> marker_at(t@, first as int) && first < i,
            count == 1 ==> forall|j: int| 0 <= j < i && #[trigger] marker_at(t@, j) ==> j == first,
            count >= 2 ==> exists|j: int| 0 <= j < i && j != first && #[trigger] marker_at(t@, j),
        decreases t@.len() - i,
    {
        let here = has_prefix_at(&t, i, t.len(), &marker);
        assert(here == marker_at(t@, i as int));
        if here {
            if count == 0 {
                first = i;
            }
            if count < 2 {
                count = count + 1;
            }
        }
        i = i + 1;
    }
    if count != 1 {
        proof {
            if count >= 2 {
                let j = choose|j: int| 0 <= j < i && j != first && #[trigger] marker_at(t@, j);
                assert forall|k: int| marker_at(t@, k) implies !(forall|j2: int| #[trigger] marker_at(t@, j2) ==> j2 == k) by {
                    if k == first {
                        assert(marker_at(t@, j));
                    } else {
                        assert(marker_at(t@, first as int));
                    }
                }
            } else {
                assert forall|k: int| marker_at(t@, k) implies false by {
                    assert(k < t@.len());
                }
            }
        }
        return None;
    }
    let k = first;
    proof {
        assert forall|j: int| #[trigger] marker_at(t@, j) implies j == k by {
            assert(j < t@.len());
        }
        assert(marker_at(t@, k as int) && (forall|j: int| #[trigger] marker_at(t@, j) ==> j == k));
        let k2 = choose|k2: int| marker_at(t@, k2) && (forall|j: int| #[trigger] marker_at(t@, j) ==> j == k2);
        assert(k2 == k);
    }
    let ghost head = t@.take(k as int);
    let fdm: Vec<char> = vec!['f', 'd', ':'];
    assert(fdm@ =~= fd_marker());
    if !has_prefix_at(&t, 0, k, &fdm) {
        proof {
            if k >= 3 {
                assert(t@.subrange(0, 3) =~= head.take(3));
            }
        }
        return None;
    }
    assert(t@.subrange(0, 3) =~= head.take(3));
    let (a, b) = trim_bounds(&t, 3, k);
    assert(t@.subrange(3, k as int) =~= head.skip(3));
    let fd = match parse_i32(&t, a, b) {
        Some(fd) => fd,
        None => return None,
    };
    let (c, d) = trim_bounds(&t, k + 6, t.len());
    assert(t@.subrange(k + 6, t@.len() as int) =~= t@.skip(k + 6));
    let body = text.substring_char(c, d);
    let bytes = body.as_bytes_vec();
    Some((fd, bytes))
}

impl FDTable {
    /// Input for descriptor `fd`: where it is a file, `bytes` and a newline
    /// join its buffer and the result is `true`; otherwise nothing changes.
    pub fn append_input(&mut self, fd: i32, bytes: &[u8]) -> (ok: bool)
        ensures
            ok == (fd_in_range(fd) && old(self).slot(fd as int) matches Some(FDEntry::File { .. })),
            !ok ==> final(self).entries@ == old(self).entries@,
            ok ==> final(self).entries@ == old(self).entries@.update(fd as int, final(self).slot(fd as int))
                && appended_file(old(self).slot(fd as int), final(self).slot(fd as int), bytes@ + seq![10u8]),
    {
        if fd < 0 || fd as usize >= MAX_FDS {
            return false;
        }
        let idx = fd as usize;
        let ghost before = self.entries@[idx as int];
        let mut entry: Option<FDEntry> = None;
        std::mem::swap(&mut entry, &mut self.entries[idx]);
        match entry {
            Some(FDEntry::File { buffer, read_ptr, is_directory, is_preopen, host_path }) => {
                let mut buffer = buffer;
                let ghost b0 = buffer@;
                assert(entry == before);
                buffer.extend_from_slice(bytes);
                assert(buffer@ == b0 + bytes@);
                buffer.push(10u8);
                assert(buffer@ =~= b0 + (bytes@ + seq![10u8]));
                self.entries[idx] = Some(FDEntry::File { buffer, read_ptr, is_directory, is_preopen, host_path });
                assert(self.entries@ =~= old(self).entries@.update(fd as int, self.slot(fd as int)));
                true
            },
            other => {
                self.entries[idx] = other;
                assert(self.entries@ =~= old(self).entries@);
                false
            },
        }
    }
}

/// `new` is the file `old` with `more` added to its buffer.
pub open spec fn appended_file(old: Option<FDEntry>, new: Option<FDEntry>, more: Seq<u8>) -> bool {
    match (old, new) {
        (Some(FDEntry::File { buffer: b0, read_ptr: r0, is_directory: d0, is_preopen: p0, host_path: h0 }),
         Some(FDEntry::File { buffer: b1, read_ptr: r1, is_directory: d1, is_preopen: p1, host_path: h1 })) =>
            b1@ == b0@ + more && r1 == r0 && d1 == d0 && p1 == p0 && h1 == h0,
        _ => false,
    }
}

} // verus!

verus! {

/// What one record of an incoming batch asks of the runtime.
pub enum RuntimeAction {
    /// Advance the global clock by this many nanoseconds.
    AdvanceClock(u64),
    /// Append `body` and a newline to descriptor `fd` of process `pid`.
    Input { pid: u64, fd: i32, body: Vec<u8> },
    /// Start a new process from this WebAssembly module.
    Start { wasm: Vec<u8> },
    /// Network data for port `port` of process `pid`.
    NetworkIn { pid: u64, port: u16, data: Vec<u8> },
}

/// An action as plain values: its kind (0 clock, 1 input, 2 start, 3 network
/// data), the process id, the number it carries (clock advance, descriptor
/// or port) and its bytes.
pub open spec fn action_view(a: RuntimeAction) -> (u8, u64, int, Seq<u8>) {
    match a {
        RuntimeAction::AdvanceClock(d) => (0u8, 0u64, d as int, Seq::empty()),
        RuntimeAction::Input { pid, fd, body } => (1u8, pid, fd as int, body@),
        RuntimeAction::Start { wasm } => (2u8, 0u64, 0, wasm@),
        RuntimeAction::NetworkIn { pid, port, data } => (3u8, pid, port as int, data@),
    }
}

pub open spec fn opt_action_view(r: Option<RuntimeAction>) -> Option<(u8, u64, int, Seq<u8>)> {
    match r {
        Some(a) => Some(action_view(a)),
        None => None,
    }
}

pub open spec fn actions_view(v: Seq<RuntimeAction>) -> Seq<(u8, u64, int, Seq<u8>)> {
    v.map_values(|a: RuntimeAction| action_view(a))
}

/// The input action of an input message of process `pid` whose text is `t`.
pub open spec fn input_action(pid: u64, t: Seq<char>) -> Option<(u8, u64, int, Seq<u8>)> {
    match fd_update_of(t) {
        Some((fd, body)) => Some((1u8, pid, fd as int, encode_utf8(body))),
        None => None,
    }
}

/// The clock action of a clock message whose text is `t`.
pub open spec fn clock_action(t: Seq<char>) -> Seq<(u8, u64, int, Seq<u8>)> {
    match clock_of(t) {
        Some(d) => seq![(0u8, 0u64, d as int, Seq::<u8>::empty())],
        None => Seq::empty(),
    }
}

pub open spec fn msg_marker() -> Seq<char> {
    seq!['m', 's', 'g', ':']
}

/// The message of a message record: its text without a leading `msg:`,
/// trimmed of whitespace.
pub open spec fn msg_text(t: Seq<char>) -> Seq<char> {
    if t.len() >= 4 && t.take(4) == msg_marker() { trim(t.skip(4)) } else { trim(t) }
}

/// The action of a message record of process `pid` whose text is `t`: its
/// message goes to descriptor 0.
pub open spec fn msg_action(pid: u64, t: Seq<char>) -> (u8, u64, int, Seq<u8>) {
    (1u8, pid, 0, encode_utf8(msg_text(t)))
}

pub open spec fn option_seq<A>(o: Option<A>) -> Seq<A> {
    match o {
        Some(a) => seq![a],
        None => Seq::empty(),
    }
}

/// The action of a record read from the live consensus stream, other than a
/// clock record. Record types: 1 an input message `fd:<n>,body:<text>`, 2 a
/// module to start, 3 a message for descriptor 0, 4 a file-transfer command
/// (which asks nothing of the runtime), 5 network data, which needs at least
/// its two port bytes. Text messages are read with invalid UTF-8 replaced.
pub open spec fn pipe_record_action(t: u8, pid: u64, p: Seq<u8>) -> Option<(u8, u64, int, Seq<u8>)> {
    if t == 1 {
        input_action(pid, utf8_lossy(p))
    } else if t == 2 {
        Some((2u8, 0u64, 0, p))
    } else if t == 3 {
        Some(msg_action(pid, utf8_lossy(p)))
    } else if t == 5 && p.len() >= 2 {
        Some((3u8, pid, spec_u16_from_le_bytes(p.take(2)) as int, p.skip(2)))
    } else {
        None
    }
}

/// The records start with a clock record whose message is valid UTF-8.
pub open spec fn leads_with_text_clock(rs: Seq<(u8, u64, Seq<u8>)>) -> bool {
    rs.len() > 0 && rs[0].0 == 0 && valid_utf8(rs[0].2)
}

/// The actions of the records of one batch from the live stream: a clock
/// record ends the batch, whether or not its message reads.
pub open spec fn pipe_actions(rs: Seq<(u8, u64, Seq<u8>)>) -> Seq<(u8, u64, int, Seq<u8>)>
    decreases rs.len(),
{
    if rs.len() == 0 {
        Seq::empty()
    } else if rs[0].0 == 0 {
        clock_action(utf8_lossy(rs[0].2))
    } else {
        option_seq(pipe_record_action(rs[0].0, rs[0].1, rs[0].2)) + pipe_actions(rs.drop_first())
    }
}

/// Reads the record at `pos`, giving it and the position after it.
fn read_record_at(data: &[u8], pos: usize) -> (r: Option<(Record, usize)>)
    requires
        pos <= data@.len(),
    ensures
        match r {
            Some((rec, next)) => pos < next <= data@.len()
                && next == pos + 11 + rec.payload@.len()
                && spec_records(data@.skip(pos as int))
                    == seq![record_view(rec)] + spec_records(data@.skip(next as int)),
            None => spec_records(data@.skip(pos as int)) == Seq::<(u8, u64, Seq<u8>)>::empty(),
        },
{
    let ghost rest = data@.skip(pos as int);
    if data.len() - pos < RECORD_HEADER_LEN {
        return None;
    }
    let len = u16_from_le_bytes(slice_subrange(data, pos + 9, pos + 11)) as usize;
    assert(rest.subrange(9, 11) =~= data@.subrange(pos + 9, pos + 11));
    if data.len() - pos - RECORD_HEADER_LEN < len {
        return None;
    }
    let pid = u64_from_le_bytes(slice_subrange(data, pos + 1, pos + 9));
    assert(rest.subrange(1, 9) =~= data@.subrange(pos + 1, pos + 9));
    let payload = slice_to_vec(slice_subrange(data, pos + 11, pos + 11 + len));
    assert(rest.subrange(11, 11 + len) =~= payload@);
    assert(rest.skip(11 + len) =~= data@.skip(pos + 11 + len));
    Some((Record { msg_type: data[pos], process_id: pid, payload }, pos + RECORD_HEADER_LEN + len))
}

/// The input action of an input message, or `None` where it does not read.
fn input_action_of(pid: u64, text: &str) -> (r: Option<RuntimeAction>)
    ensures
        opt_action_view(r) == input_action(pid, text@),
{
    match parse_fd_update_text(text) {
        Some((fd, body)) => Some(RuntimeAction::Input { pid, fd, body }),
        None => None,
    }
}

/// The input action for descriptor 0 of a message record (see `msg_text`).
fn msg_action_of(pid: u64, text: &str) -> (r: RuntimeAction)
    ensures
        action_view(r) == msg_action(pid, text@),
{
    let t = chars_of(text);
    let marker: Vec<char> = vec!['m', 's', 'g', ':'];
    assert(marker@ =~= msg_marker());
    let from: usize = if has_prefix_at(&t, 0, t.len(), &marker) { 4 } else { 0 };
    proof {
        if t@.len() >= 4 {
            assert(t@.subrange(0, 4) =~= t@.take(4));
        }
    }
    let (c, d) = trim_bounds(&t, from, t.len());
    assert(t@.subrange(from as int, t@.len() as int) =~= t@.skip(from as int));
    assert(t@.skip(0) =~= t@);
    let body = text.substring_char(c, d);
    RuntimeAction::Input { pid, fd: 0, body: body.as_bytes_vec() }
}

/// The action of a record of the live stream other than a clock record.
fn pipe_record_action_of(rec: Record) -> (r: Option<RuntimeAction>)
    ensures
        opt_action_view(r)
            == pipe_record_action(rec.msg_type, rec.process_id, rec.payload@),
{
    let Record { msg_type, process_id, payload } = rec;
    if msg_type == 1 {
        let text = lossy_text(payload.as_slice());
        input_action_of(process_id, text.as_str())
    } else if msg_type == 2 {
        Some(RuntimeAction::Start { wasm: payload })
    } else if msg_type == 3 {
        let text = lossy_text(payload.as_slice());
        Some(msg_action_of(process_id, text.as_str()))
    } else if msg_type == 5 && payload.len() >= 2 {
        let port = u16_from_le_bytes(slice_subrange(payload.as_slice(), 0, 2));
        assert(payload@.subrange(0, 2) =~= payload@.take(2));
        let data = slice_to_vec(slice_subrange(payload.as_slice(), 2, payload.len()));
        assert(data@ =~= payload@.skip(2));
        Some(RuntimeAction::NetworkIn { pid: process_id, port, data })
    } else {
        None
    }
}

/// Decodes the data of one batch from the live consensus stream into the
/// actions it asks for, in order.
pub fn decode_pipe_batch(data: &[u8]) -> (v: Vec<RuntimeAction>)
    ensures
        actions_view(v@) == pipe_actions(spec_records(data@)),
        leads_with_text_clock(spec_records(data@))
            ==> actions_view(v@) == clock_action(decode_utf8(spec_records(data@)[0].2)),
{
    let mut v: Vec<RuntimeAction> = Vec::new();
    let mut pos: usize = 0;
    assert(data@.skip(0) =~= data@);
    assert(actions_view(v@) + pipe_actions(spec_records(data@)) =~= pipe_actions(spec_records(data@)));
    loop
        invariant_except_break
            actions_view(v@) + pipe_actions(spec_records(data@.skip(pos as int)))
                == pipe_actions(spec_records(data@)),
            pos == 0 ==> v@.len() == 0,
            pos > 0 ==> !leads_with_text_clock(spec_records(data@)),
        invariant
            pos <= data@.len(),
        ensures
            actions_view(v@) == pipe_actions(spec_records(data@)),
            leads_with_text_clock(spec_records(data@))
                ==> actions_view(v@) == clock_action(decode_utf8(spec_records(data@)[0].2)),
        decreases data@.len() - pos,
    {
        let ghost before = actions_view(v@);
        match read_record_at(data, pos) {
            None => {
                assert(before + pipe_actions(Seq::empty()) =~= before);
                assert(pos == 0 ==> data@.skip(0) =~= data@);
                break;
            },
            Some((rec, next)) => {
                let ghost rs = spec_records(data@.skip(pos as int));
                let ghost r0 = record_view(rec);
                assert(rs[0] == r0);
                assert(rs.drop_first() =~= spec_records(data@.skip(next as int)));
                if rec.msg_type == 0 {
                    let text = lossy_text(rec.payload.as_slice());
                    match parse_clock_text(text.as_str()) {
                        Some(d) => {
                            v.push(RuntimeAction::AdvanceClock(d));
                            assert(actions_view(v@) =~= before + clock_action(utf8_lossy(r0.2)));
                        },
                        None => {
                            assert(before + clock_action(utf8_lossy(r0.2)) =~= before);
                        },
                    }
                    assert(actions_view(v@) == pipe_actions(spec_records(data@)));
                    proof {
                        if pos == 0 && leads_with_text_clock(spec_records(data@)) {
                            assert(data@.skip(0) =~= data@);
                            assert(spec_records(data@)[0] == r0);
                        }
                    }
                    break;
                }
                let a = pipe_record_action_of(rec);
                match a {
                    Some(a) => {
                        v.push(a);
                        assert(actions_view(v@) =~= before + option_seq(pipe_record_action(r0.0, r0.1, r0.2)));
                    },
                    None => {
                        assert(before + option_seq(pipe_record_action(r0.0, r0.1, r0.2)) =~= before);
                    },
                }
                assert(actions_view(v@) + pipe_actions(spec_records(data@.skip(next as int)))
                    =~= before + pipe_actions(rs));
                proof {
                    if pos == 0 {
                        assert(data@.skip(0) =~= data@);
                        assert(spec_records(data@)[0] == r0);
                    }
                }
                pos = next;
            },
        }
    }
    v
}

} // verus!

verus! {

/// Size in bytes of a run of records.
pub open spec fn records_size(rs: Seq<(u8, u64, Seq<u8>)>) -> int
    decreases rs.len(),
{
    if rs.len() == 0 {
        0
    } else {
        records_size(rs.drop_last()) + 11 + rs.last().2.len()
    }
}

/// A clock record whose message is valid UTF-8: it ends a batch of the
/// session file.
pub open spec fn ends_file_batch(r: (u8, u64, Seq<u8>)) -> bool {
    r.0 == 0 && valid_utf8(r.2)
}

/// How many records one reading of the session file takes: up to and
/// including the first record that ends a batch, else all of them.
pub open spec fn file_records_used(rs: Seq<(u8, u64, Seq<u8>)>) -> int
    decreases rs.len(),
{
    if rs.len() == 0 {
        0
    } else if ends_file_batch(rs[0]) {
        1
    } else {
        1 + file_records_used(rs.drop_first())
    }
}

/// The action of a record of the session file that does not end a batch:
/// text messages must be valid UTF-8, and only input messages, messages for
/// descriptor 0 and process starts act.
pub open spec fn file_record_action(t: u8, pid: u64, p: Seq<u8>) -> Option<(u8, u64, int, Seq<u8>)> {
    if t == 1 && valid_utf8(p) {
        input_action(pid, decode_utf8(p))
    } else if t == 3 && valid_utf8(p) {
        Some(msg_action(pid, decode_utf8(p)))
    } else if t == 2 {
        Some((2u8, 0u64, 0, p))
    } else {
        None
    }
}

/// The actions of one reading of the session file.
pub open spec fn file_actions(rs: Seq<(u8, u64, Seq<u8>)>) -> Seq<(u8, u64, int, Seq<u8>)>
    decreases rs.len(),
{
    if rs.len() == 0 {
        Seq::empty()
    } else if ends_file_batch(rs[0]) {
        clock_action(decode_utf8(rs[0].2))
    } else {
        option_seq(file_record_action(rs[0].0, rs[0].1, rs[0].2)) + file_actions(rs.drop_first())
    }
}

/// One reading of the session file: the actions, how many bytes of it were
/// taken, and whether any record was.
pub struct FileBatch {
    pub actions: Vec<RuntimeAction>,
    pub consumed: usize,
    pub processed: bool,
}

/// The action of a record of the session file that does not end a batch.
fn file_record_action_of(rec: Record) -> (r: Option<RuntimeAction>)
    ensures
        opt_action_view(r) == file_record_action(rec.msg_type, rec.process_id, rec.payload@),
{
    let Record { msg_type, process_id, payload } = rec;
    if msg_type == 1 {
        match strict_text(payload) {
            Some(text) => input_action_of(process_id, text.as_str()),
            None => None,
        }
    } else if msg_type == 3 {
        match strict_text(payload) {
            Some(text) => Some(msg_action_of(process_id, text.as_str())),
            None => None,
        }
    } else if msg_type == 2 {
        Some(RuntimeAction::Start { wasm: payload })
    } else {
        None
    }
}

/// Reads the session file from the current position (`data` is what
/// follows it): the records up to and including the first clock message,
/// or all complete records when there is none.
pub fn decode_file_records(data: &[u8]) -> (b: FileBatch)
    ensures
        actions_view(b.actions@) == file_actions(spec_records(data@)),
        b.consumed == records_size(spec_records(data@).take(file_records_used(spec_records(data@)))),
        b.processed == (spec_records(data@).len() > 0),
{
    let ghost rs = spec_records(data@);
    let mut v: Vec<RuntimeAction> = Vec::new();
    let mut pos: usize = 0;
    let mut processed = false;
    let ghost mut i: int = 0;
    assert(data@.skip(0) =~= data@);
    assert(rs.skip(0) =~= rs);
    assert(rs.take(0) =~= Seq::<(u8, u64, Seq<u8>)>::empty());
    assert(actions_view(v@) + file_actions(rs) =~= file_actions(rs));
    loop
        invariant_except_break
            actions_view(v@) + file_actions(rs.skip(i)) == file_actions(rs),
            file_records_used(rs) == i + file_records_used(rs.skip(i)),
        invariant
            rs == spec_records(data@),
            0 <= i <= rs.len(),
            pos <= data@.len(),
            spec_records(data@.skip(pos as int)) == rs.skip(i),
            pos == records_size(rs.take(i)),
            processed == (i > 0),
        ensures
            actions_view(v@) == file_actions(rs),
            pos == records_size(rs.take(file_records_used(rs))),
            processed == (rs.len() > 0),
        decreases data@.len() - pos,
    {
        let ghost before = actions_view(v@);
        match read_record_at(data, pos) {
            None => {
                assert(rs.skip(i).len() == 0);
                assert(i == rs.len());
                assert(before + file_actions(rs.skip(i)) =~= before);
                break;
            },
            Some((rec, next)) => {
                let ghost r0 = record_view(rec);
                let ghost tail = rs.skip(i);
                processed = true;
                assert(tail[0] == r0);
                assert(rs[i] == r0);
                assert(tail.drop_first() =~= rs.skip(i + 1));
                assert(rs.take(i + 1).drop_last() =~= rs.take(i));
                assert(rs.take(i + 1).last() == rs[i]);
                assert(records_size(rs.take(i + 1)) == records_size(rs.take(i)) + 11 + r0.2.len());
                if rec.msg_type == 0 {
                    let Record { msg_type, process_id, payload } = rec;
                    match strict_text(payload) {
                        Some(text) => {
                            match parse_clock_text(text.as_str()) {
                                Some(d) => {
                                    v.push(RuntimeAction::AdvanceClock(d));
                                    assert(actions_view(v@) =~= before + clock_action(decode_utf8(r0.2)));
                                },
                                None => {
                                    assert(before + clock_action(decode_utf8(r0.2)) =~= before);
                                },
                            }
                            assert(actions_view(v@) == file_actions(rs));
                            pos = next;
                            proof {
                                i = i + 1;
                            }
                            assert(file_records_used(rs) == i);
                            break;
                        },
                        None => {
                            assert(before + option_seq(file_record_action(r0.0, r0.1, r0.2)) =~= before);
                        },
                    }
                } else {
                    let a = file_record_action_of(rec);
                    match a {
                        Some(a) => {
                            v.push(a);
                            assert(actions_view(v@) =~= before + option_seq(file_record_action(r0.0, r0.1, r0.2)));
                        },
                        None => {
                            assert(before + option_seq(file_record_action(r0.0, r0.1, r0.2)) =~= before);
                        },
                    }
                }
                assert(actions_view(v@) + file_actions(rs.skip(i + 1)) =~= before + file_actions(tail));
                pos = next;
                proof {
                    i = i + 1;
                }
            },
        }
    }
    FileBatch { actions: v, consumed: pos, processed }
}

/// The characters of a clock message for an advance of `d`.
pub open spec fn clock_text(d: u64) -> Seq<char> {
    clock_marker() + decimal(d as nat)
}

proof fn lemma_clock_text_bytes(d: u64)
    ensures
        encode_utf8(clock_text(d)) == clock_prefix() + ascii_bytes(decimal(d as nat)),
{
    let t = clock_text(d);
    lemma_decimal_digits(d as nat);
    assert(is_ascii_chars(t)) by {
        assert forall|i: int| 0 <= i < t.len() implies '\0' <= #[trigger] t[i] <= '\u{7f}' by {
            if i >= 6 {
                assert(t[i] == decimal(d as nat)[i - 6]);
                assert(is_digit(decimal(d as nat)[i - 6]));
            }
        }
    }
    is_ascii_chars_encode_utf8(t);
    assert(encode_utf8(t) =~= clock_prefix() + ascii_bytes(decimal(d as nat)));
}

proof fn lemma_clock_of_text(d: u64)
    ensures
        clock_of(clock_text(d)) == Some(d),
{
    let t = clock_text(d);
    assert(t.take(6) =~= clock_marker());
    assert(t.skip(6) =~= decimal(d as nat));
    lemma_decimal_digits(d as nat);
    assert forall|i: int| 0 <= i < decimal(d as nat).len() implies !is_ws(#[trigger] decimal(d as nat)[i]) by {
        assert(is_digit(decimal(d as nat)[i]));
    }
    lemma_trim_digits(decimal(d as nat));
    lemma_parse_u64_decimal(d);
}

/// A clock command written into the session file is read back by the
/// runtime as that clock advance, and it ends the batch after one record.
pub proof fn lemma_clock_record_read_back(d: u64, rest: Seq<u8>)
    ensures
        ({
            let rs = spec_records(record_bytes(0, 0, clock_prefix() + ascii_bytes(decimal(d as nat))) + rest);
            &&& file_actions(rs) == seq![(0u8, 0u64, d as int, Seq::<u8>::empty())]
            &&& file_records_used(rs) == 1
        }),
{
    let payload = clock_prefix() + ascii_bytes(decimal(d as nat));
    lemma_clock_text_bytes(d);
    lemma_decimal_len(d);
    lemma_records_of_record(0, 0, payload, rest);
    let rs = spec_records(record_bytes(0, 0, payload) + rest);
    assert(rs[0] == (0u8, 0u64, payload));
    encode_utf8_valid_utf8(clock_text(d));
    encode_utf8_decode_utf8(clock_text(d));
    lemma_clock_of_text(d);
}

/// A clock command sent on the live stream starts its batch with a clock
/// record whose text is valid UTF-8 and reads as exactly that clock advance;
/// by the contract of `decode_pipe_batch`, the batch then decodes to that
/// one advance.
pub proof fn lemma_pipe_clock_read_back(d: u64, rest: Seq<u8>)
    ensures
        ({
            let rs = spec_records(record_bytes(0, 0, clock_prefix() + ascii_bytes(decimal(d as nat))) + rest);
            &&& leads_with_text_clock(rs)
            &&& clock_action(decode_utf8(rs[0].2)) == seq![(0u8, 0u64, d as int, Seq::<u8>::empty())]
        }),
{
    let payload = clock_prefix() + ascii_bytes(decimal(d as nat));
    lemma_clock_text_bytes(d);
    lemma_decimal_len(d);
    lemma_records_of_record(0, 0, payload, rest);
    let rs = spec_records(record_bytes(0, 0, payload) + rest);
    assert(rs[0] == (0u8, 0u64, payload));
    encode_utf8_valid_utf8(clock_text(d));
    encode_utf8_decode_utf8(clock_text(d));
    lemma_clock_of_text(d);
}

/// The decimal text of an `i32`: a `-` for a negative value, then the
/// digits of its magnitude.
pub open spec fn i32_text(n: i32) -> Seq<char> {
    if n >= 0 { decimal(n as nat) } else { seq!['-'] + decimal((0 - n) as nat) }
}

proof fn lemma_i32_text(n: i32)
    ensures
        i32_text(n).len() > 0,
        forall|i: int| 0 <= i < i32_text(n).len() ==> !is_ws(#[trigger] i32_text(n)[i]) && i32_text(n)[i] != ',',
        trim(i32_text(n)) == i32_text(n),
        spec_parse_i32(i32_text(n)) == Some(n),
{
    let num = i32_text(n);
    let mag: nat = if n >= 0 { n as nat } else { (0 - n) as nat };
    lemma_decimal_digits(mag);
    assert forall|i: int| 0 <= i < num.len() implies !is_ws(#[trigger] num[i]) && num[i] != ',' by {
        if n < 0 && i > 0 {
            assert(num[i] == decimal(mag)[i - 1]);
            assert(is_digit(decimal(mag)[i - 1]));
        } else if n >= 0 {
            assert(is_digit(decimal(mag)[i]));
        }
    }
    lemma_trim_digits(num);
    if n < 0 {
        assert(num.drop_first() =~= decimal(mag));
    }
}

proof fn lemma_marker_only_at(num: Seq<char>, b: Seq<char>)
    requires
        forall|i: int| 0 <= i < num.len() ==> #[trigger] num[i] != ',',
        forall|j: int| !#[trigger] marker_at(b, j),
    ensures
        forall|j: int| #[trigger] marker_at(fd_marker() + num + body_marker() + b, j)
            <==> j == 3 + num.len(),
{
    let t = fd_marker() + num + body_marker() + b;
    let k: int = 3 + num.len() as int;
    assert(t.subrange(k, k + 6) =~= body_marker());
    assert forall|j: int| #[trigger] marker_at(t, j) implies j == k by {
        assert(t.subrange(j, j + 6)[0] == ',');
        if j < 3 {
        } else if j < k {
            assert(t[j] == num[j - 3]);
        } else if j > k && j < k + 6 {
            assert(t[j] == body_marker()[j - k]);
        } else if j >= k + 6 {
            assert(b.subrange(j - k - 6, j - k) =~= t.subrange(j, j + 6));
            assert(marker_at(b, j - k - 6));
        }
    }
}

/// An input message `fd:<n>,body:<b>` reads as descriptor `n` and the whole
/// body `b`, spaces inside it included, when `b` has no whitespace at
/// either end and does not itself hold `,body:`.
pub proof fn lemma_fd_update_read_back(n: i32, b: Seq<char>)
    requires
        b.len() > 0 ==> !is_ws(b[0]) && !is_ws(b.last()),
        forall|j: int| !#[trigger] marker_at(b, j),
    ensures
        fd_update_of(fd_marker() + i32_text(n) + body_marker() + b) == Some((n, b)),
{
    let num = i32_text(n);
    let t = fd_marker() + num + body_marker() + b;
    let k: int = 3 + num.len() as int;
    lemma_i32_text(n);
    lemma_marker_only_at(num, b);
    assert(marker_at(t, k));
    let k2 = choose|k2: int| marker_at(t, k2) && (forall|j: int| #[trigger] marker_at(t, j) ==> j == k2);
    assert(k2 == k);
    let head = t.take(k);
    assert(head =~= fd_marker() + num);
    assert(head.take(3) =~= fd_marker());
    assert(head.skip(3) =~= num);
    assert(t.skip(k + 6) =~= b);
    lemma_trim_unpadded(b);
}

/// A module started from the console reaches the runtime unchanged: an init
/// command without a directory is the type-2 record for every process
/// (pid `u64::MAX`) whose payload is exactly the module's bytes, and read
/// back, from the live stream or the session file, that record starts
/// exactly that module.
pub proof fn lemma_start_read_back(wasm: Vec<u8>, args: Vec<String>, rest: Seq<u8>)
    requires
        wasm@.len() <= 65535,
    ensures
        command_record(Command::Init { wasm_bytes: wasm, dir_path: None, args }) == Some((2u8, u64::MAX, wasm@)),
        ({
            let rs = spec_records(record_bytes(2, u64::MAX, wasm@) + rest);
            &&& rs.len() > 0
            &&& rs[0] == (2u8, u64::MAX, wasm@)
            &&& pipe_record_action(rs[0].0, rs[0].1, rs[0].2) == Some((2u8, 0u64, 0int, wasm@))
            &&& !ends_file_batch(rs[0])
            &&& file_record_action(rs[0].0, rs[0].1, rs[0].2) == Some((2u8, 0u64, 0int, wasm@))
        }),
{
    lemma_records_of_record(2, u64::MAX, wasm@, rest);
}

/// Network data that the consensus node writes for port `port` of process
/// `pid` is read by the runtime as exactly that data for that port.
pub proof fn lemma_network_data_read_back(pid: u64, port: u16, data: Seq<u8>)
    ensures
        pipe_record_action(5, pid, spec_u16_to_le_bytes(port) + data) == Some((3u8, pid, port as int, data)),
{
    lemma_auto_spec_u16_to_from_le_bytes();
    let p = spec_u16_to_le_bytes(port) + data;
    assert(p.take(2) =~= spec_u16_to_le_bytes(port));
    assert(p.skip(2) =~= data);
}

} // verus!
