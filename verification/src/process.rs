use vstd::prelude::*;
use vstd::string::StringExecFns;
use crate::decimal::{decimal, push_decimal};
use vstd::bytes::*;
use vstd::slice::slice_subrange;
use crate::commands::NetworkOperation;
use crate::fd_table::{FDEntry, FDTable, MAX_FDS, first_socket_on, fresh_table, socket_on, with_connected, appended_socket};
use crate::nat_table::{NatTable, key, status_payload};
use crate::consensus_input::{lemma_network_data_read_back, pipe_record_action};
use crate::scheduler::{BlockReason, OutgoingNetworkMessage, ProcessState};

verus! {

/// Everything the runtime keeps for one process, as plain values.
pub struct ProcessData {
    pub id: u64,
    pub state: ProcessState,
    pub block_reason: Option<BlockReason>,
    pub fd_table: FDTable,
    /// The ports of the process as the consensus node has confirmed them.
    pub nat_table: NatTable,
    /// Network requests not yet handed to the consensus node.
    pub network_queue: Vec<OutgoingNetworkMessage>,
    /// The last port handed to a socket of the process.
    pub next_port: u16,
    /// The host directory that is the root of the process's sandbox.
    pub root_path: String,
    pub args: Vec<String>,
    pub max_disk_usage: u64,
    pub current_disk_usage: u64,
    /// File data written by the process and not yet flushed to the host.
    pub write_buffer: Vec<u8>,
    pub max_write_buffer: usize,
}

/// The disk usage after adding `bytes` to `usage`, saturating at `u64::MAX`.
pub open spec fn usage_after_add(usage: u64, bytes: u64) -> u64 {
    if usage + bytes > u64::MAX { u64::MAX } else { (usage + bytes) as u64 }
}

/// The disk usage after taking `bytes` from `usage`, stopping at zero.
pub open spec fn usage_after_sub(usage: u64, bytes: u64) -> u64 {
    if usage < bytes { 0 } else { (usage - bytes) as u64 }
}

impl ProcessData {
    /// A ready process with the standard descriptor table rooted at
    /// `root_path`, no network state and nothing used on disk.
    pub fn new(id: u64, root_path: String, args: Vec<String>, max_disk_usage: u64, max_write_buffer: usize) -> (p: ProcessData)
        ensures
            p.id == id,
            p.state == ProcessState::Ready,
            p.block_reason is None,
            fresh_table(p.fd_table, root_path),
            p.nat_table.wf(),
            p.nat_table.ports() == Map::<crate::keyed::PortKey, u16>::empty(),
            p.nat_table.accept_waits() == Map::<crate::keyed::PortKey, u16>::empty(),
            p.nat_table.recv_waits() == Map::<crate::keyed::PortKey, bool>::empty(),
            p.network_queue@.len() == 0,
            p.next_port == 0,
            p.root_path == root_path,
            p.args == args,
            p.max_disk_usage == max_disk_usage,
            p.current_disk_usage == 0,
            p.write_buffer@.len() == 0,
            p.max_write_buffer == max_write_buffer,
    {
        let fd_table = FDTable::new(root_path.clone());
        ProcessData {
            id,
            state: ProcessState::Ready,
            block_reason: None,
            fd_table,
            nat_table: NatTable::new(),
            network_queue: Vec::new(),
            next_port: 0,
            root_path,
            args,
            max_disk_usage,
            current_disk_usage: 0,
            write_buffer: Vec::new(),
            max_write_buffer,
        }
    }

    /// Adds `bytes` to the tracked disk usage (saturating). When the usage
    /// is then over the limit the process is killed: it is finished, and the
    /// result is `Err` with `ENOSPC` (28). The usage stays raised either way.
    pub fn usage_add(&mut self, bytes: u64) -> (r: Result<(), i32>)
        ensures
            final(self).current_disk_usage == usage_after_add(old(self).current_disk_usage, bytes),
            r is Ok <==> final(self).current_disk_usage <= old(self).max_disk_usage,
            r matches Err(e) ==> e == 28,
            final(self).state == (if r is Ok { old(self).state } else { ProcessState::Finished }),
            final(self).max_disk_usage == old(self).max_disk_usage,
            final(self).fd_table == old(self).fd_table,
            final(self).nat_table == old(self).nat_table,
            final(self).block_reason == old(self).block_reason,
            final(self).write_buffer == old(self).write_buffer,
            final(self).network_queue == old(self).network_queue,
            final(self).next_port == old(self).next_port,
    {
        self.current_disk_usage = self.current_disk_usage.saturating_add(bytes);
        if self.current_disk_usage > self.max_disk_usage {
            self.state = ProcessState::Finished;
            return Err(28);
        }
        Ok(())
    }

    /// Takes `bytes` from the tracked disk usage, stopping at zero.
    pub fn usage_sub(&mut self, bytes: u64)
        ensures
            final(self).current_disk_usage == usage_after_sub(old(self).current_disk_usage, bytes),
            final(self).max_disk_usage == old(self).max_disk_usage,
            final(self).fd_table == old(self).fd_table,
            final(self).nat_table == old(self).nat_table,
            final(self).state == old(self).state,
            final(self).block_reason == old(self).block_reason,
            final(self).write_buffer == old(self).write_buffer,
            final(self).network_queue == old(self).network_queue,
            final(self).next_port == old(self).next_port,
    {
        self.current_disk_usage = self.current_disk_usage.saturating_sub(bytes);
    }

    /// The process stops for `reason`: a running process becomes blocked,
    /// and the reason is recorded.
    pub fn block_for(&mut self, reason: BlockReason)
        ensures
            final(self).state == (if old(self).state == ProcessState::Running {
                ProcessState::Blocked
            } else {
                old(self).state
            }),
            final(self).block_reason == Some(reason),
            final(self).fd_table == old(self).fd_table,
            final(self).nat_table == old(self).nat_table,
            final(self).network_queue == old(self).network_queue,
            final(self).write_buffer == old(self).write_buffer,
            final(self).next_port == old(self).next_port,
            final(self).current_disk_usage == old(self).current_disk_usage,
    {
        if self.state == ProcessState::Running {
            self.state = ProcessState::Blocked;
        }
        self.block_reason = Some(reason);
    }

    /// The next port for a socket of the process.
    pub fn take_port(&mut self) -> (p: u16)
        requires
            old(self).next_port < u16::MAX,
        ensures
            p == old(self).next_port + 1,
            final(self).next_port == p,
            final(self).id == old(self).id,
            final(self).fd_table == old(self).fd_table,
            final(self).nat_table == old(self).nat_table,
            final(self).network_queue == old(self).network_queue,
            final(self).state == old(self).state,
            final(self).block_reason == old(self).block_reason,
    {
        self.next_port = self.next_port + 1;
        self.next_port
    }

    /// Queues a network request of this process for the consensus node.
    pub fn queue_request(&mut self, operation: NetworkOperation)
        ensures
            final(self).network_queue@ == old(self).network_queue@.push(
                OutgoingNetworkMessage { pid: old(self).id, operation }),
            final(self).fd_table == old(self).fd_table,
            final(self).nat_table == old(self).nat_table,
            final(self).next_port == old(self).next_port,
            final(self).state == old(self).state,
            final(self).block_reason == old(self).block_reason,
            final(self).id == old(self).id,
    {
        let pid = self.id;
        self.network_queue.push(OutgoingNetworkMessage { pid, operation });
    }
}

/// A status message from the consensus node: status, source port and the
/// port of an accepted connection.
pub open spec fn status_of(data: Seq<u8>) -> (u8, u16, u16) {
    (data[0], spec_u16_from_le_bytes(data.subrange(1, 3)), spec_u16_from_le_bytes(data.subrange(3, 5)))
}

/// The data for port `port` goes to the first socket on that port that is
/// not a listener, else to the first listener on it.
pub open spec fn data_target(t: FDTable, port: u16) -> Option<int> {
    match first_socket_on(t, port, Some(false)) {
        Some(i) => Some(i),
        None => first_socket_on(t, port, Some(true)),
    }
}

impl ProcessData {
    /// Applies network data that the consensus node addressed to port
    /// `port` of this process.
    ///
    /// On port 0, with at least five bytes, it is the answer to a request:
    /// status 1 confirms it (an accept maps and connects the new port, any
    /// other request maps its source port; the accept wait ends), status 2
    /// means still waiting for an accept, anything else is a failure (both
    /// waits end and the sockets on the source port are disconnected).
    /// Otherwise the bytes join the buffer of the socket on that port (see
    /// `data_target`), ending its receive wait; with no such socket nothing
    /// changes.
    pub fn apply_network_in(&mut self, port: u16, data: &[u8])
        requires
            old(self).nat_table.wf(),
            old(self).nat_table.next() < u16::MAX,
        ensures
            final(self).nat_table.wf(),
            final(self).nat_table.entries() == old(self).nat_table.entries(),
            final(self).nat_table.listener_map() == old(self).nat_table.listener_map(),
            final(self).nat_table.connection_map() == old(self).nat_table.connection_map(),
            final(self).state == old(self).state,
            final(self).block_reason == old(self).block_reason,
            final(self).network_queue == old(self).network_queue,
            final(self).id == old(self).id,
            ({
                let pid = old(self).id;
                let nat0 = old(self).nat_table;
                let nat1 = final(self).nat_table;
                let t0 = old(self).fd_table;
                let t1 = final(self).fd_table;
                if port == 0 && data@.len() >= 5 {
                    let (status, src, newp) = status_of(data@);
                    if status == 1 {
                        let mapped = if newp != 0 { newp } else { src };
                        &&& nat1.ports() == nat0.ports().insert(key(pid, mapped), nat0.next())
                        &&& nat1.next() == nat0.next() + 1
                        &&& nat1.accept_waits() == nat0.accept_waits().remove(key(pid, src))
                        &&& nat1.recv_waits() == nat0.recv_waits()
                        &&& t1.entries@ == (if newp != 0 && first_socket_on(t0, newp, None) is Some {
                            t0.entries@.update(first_socket_on(t0, newp, None)->0,
                                with_connected(t0.slot(first_socket_on(t0, newp, None)->0), true))
                        } else {
                            t0.entries@
                        })
                    } else if status == 2 {
                        &&& nat1.ports() == nat0.ports()
                        &&& nat1.next() == nat0.next()
                        &&& nat1.accept_waits() == nat0.accept_waits().insert(key(pid, src), 0)
                        &&& nat1.recv_waits() == nat0.recv_waits()
                        &&& t1 == t0
                    } else {
                        &&& nat1.ports() == nat0.ports()
                        &&& nat1.next() == nat0.next()
                        &&& nat1.accept_waits() == nat0.accept_waits().remove(key(pid, src))
                        &&& nat1.recv_waits() == nat0.recv_waits().remove(key(pid, src))
                        &&& forall|i: int| 0 <= i < MAX_FDS ==> #[trigger] t1.slot(i) == (
                            if socket_on(t0.slot(i), src, None) {
                                with_connected(t0.slot(i), false)
                            } else {
                                t0.slot(i)
                            })
                    }
                } else {
                    &&& nat1.ports() == nat0.ports()
                    &&& nat1.next() == nat0.next()
                    &&& nat1.accept_waits() == nat0.accept_waits()
                    &&& match data_target(t0, port) {
                        Some(i) => {
                            &&& nat1.recv_waits() == nat0.recv_waits().remove(key(pid, port))
                            &&& t1.entries@ == t0.entries@.update(i, t1.slot(i))
                            &&& appended_socket(t0.slot(i), t1.slot(i), data@)
                        },
                        None => nat1.recv_waits() == nat0.recv_waits() && t1 == t0,
                    }
                }
            }),
    {
        let pid = self.id;
        if port == 0 && data.len() >= 5 {
            let status = data[0];
            let src = u16_from_le_bytes(slice_subrange(data, 1, 3));
            let newp = u16_from_le_bytes(slice_subrange(data, 3, 5));
            if status == 1 {
                if newp != 0 {
                    self.nat_table.add_port_mapping(pid, newp);
                    match self.fd_table.find_socket(newp, None) {
                        Some(i) => self.fd_table.set_connected(i, true),
                        None => {},
                    }
                } else {
                    self.nat_table.add_port_mapping(pid, src);
                }
                self.nat_table.clear_waiting_accept(pid, src);
            } else if status == 2 {
                self.nat_table.set_waiting_accept(pid, src, 0);
            } else {
                self.nat_table.clear_waiting_accept(pid, src);
                self.nat_table.clear_waiting_recv(pid, src);
                self.fd_table.disconnect_port(src);
            }
        } else {
            let target = match self.fd_table.find_socket(port, Some(false)) {
                Some(i) => Some(i),
                None => self.fd_table.find_socket(port, Some(true)),
            };
            match target {
                Some(i) => {
                    self.fd_table.append_to_socket(i, data);
                    self.nat_table.clear_waiting_recv(pid, port);
                },
                None => {},
            }
        }
    }
}

impl ProcessData {
    /// The process gives up the processor: a running process becomes ready.
    pub fn yield_cpu(&mut self)
        ensures
            final(self).state == (if old(self).state == ProcessState::Running {
                ProcessState::Ready
            } else {
                old(self).state
            }),
            final(self).block_reason == old(self).block_reason,
            final(self).fd_table == old(self).fd_table,
            final(self).nat_table == old(self).nat_table,
            final(self).network_queue == old(self).network_queue,
    {
        if self.state == ProcessState::Running {
            self.state = ProcessState::Ready;
        }
    }

    /// The process has exited.
    pub fn finish(&mut self)
        ensures
            final(self).state == ProcessState::Finished,
            final(self).block_reason == old(self).block_reason,
            final(self).fd_table == old(self).fd_table,
            final(self).nat_table == old(self).nat_table,
            final(self).network_queue == old(self).network_queue,
    {
        self.state = ProcessState::Finished;
    }

    /// The process sleeps until time `wake`: it is blocked, whatever its
    /// state, with a timeout as reason.
    pub fn block_until(&mut self, wake: u64)
        ensures
            final(self).state == ProcessState::Blocked,
            final(self).block_reason == Some(BlockReason::Timeout { resume_after: wake }),
            final(self).fd_table == old(self).fd_table,
            final(self).nat_table == old(self).nat_table,
            final(self).network_queue == old(self).network_queue,
    {
        self.state = ProcessState::Blocked;
        self.block_reason = Some(BlockReason::Timeout { resume_after: wake });
    }
}

/// `wasi_sandbox_<idx>`: the name tried for a runtime's sandbox directory.
pub open spec fn sandbox_name(idx: u64) -> Seq<char> {
    seq!['w', 'a', 's', 'i', '_', 's', 'a', 'n', 'd', 'b', 'o', 'x', '_'] + decimal(idx as nat)
}

/// The candidate sandbox directory with index `idx`; the runtime takes the
/// first that does not exist yet.
pub fn sandbox_candidate(idx: u64) -> (s: String)
    ensures
        s@ == sandbox_name(idx),
{
    proof {
        reveal_strlit("wasi_sandbox_");
    }
    let mut s = String::from_str("wasi_sandbox_");
    push_decimal(&mut s, idx);
    assert(s@ =~= sandbox_name(idx));
    s
}

/// `/tmp/wasm_sandbox/pid_<id>`: the sandbox of a process started from
/// consensus input.
pub open spec fn process_root_name(id: u64) -> Seq<char> {
    seq!['/', 't', 'm', 'p', '/', 'w', 'a', 's', 'm', '_', 's', 'a', 'n', 'd', 'b', 'o', 'x', '/', 'p', 'i', 'd', '_']
        + decimal(id as nat)
}

pub fn process_root_path(id: u64) -> (s: String)
    ensures
        s@ == process_root_name(id),
{
    proof {
        reveal_strlit("/tmp/wasm_sandbox/pid_");
    }
    let mut s = String::from_str("/tmp/wasm_sandbox/pid_");
    push_decimal(&mut s, id);
    assert(s@ =~= process_root_name(id));
    s
}

/// What the consensus node answers a request with, the runtime reads back:
/// the network input on port 0 carrying the status, the source port and the
/// new port is taken as that status message.
pub proof fn lemma_answer_read_back(pid: u64, status: u8, src_port: u16, new_port: u16)
    ensures
        ({
            let sp = status_payload(status, src_port, new_port);
            &&& pipe_record_action(5, pid, spec_u16_to_le_bytes(0) + sp) == Some((3u8, pid, 0int, sp))
            &&& sp.len() >= 5
            &&& status_of(sp) == (status, src_port, new_port)
        }),
{
    lemma_auto_spec_u16_to_from_le_bytes();
    let sp = status_payload(status, src_port, new_port);
    lemma_network_data_read_back(pid, 0, sp);
    assert(sp.subrange(1, 3) =~= spec_u16_to_le_bytes(src_port));
    assert(sp.subrange(3, 5) =~= spec_u16_to_le_bytes(new_port));
}

} // verus!
