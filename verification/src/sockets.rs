use vstd::prelude::*;
use vstd::bytes::*;
use vstd::string::StringExecFns;
use vstd::slice::{slice_subrange, slice_to_vec};
use crate::commands::NetworkOperation;
use crate::decimal::{decimal, push_decimal};
use crate::fd_table::{FDEntry, FDTable, MAX_FDS, fd_in_range, port_of, as_listener};
use crate::guest::{fits, fits_in, spliced, store_u32, write_bytes, min_int};
use crate::nat_table::key;
use crate::process::ProcessData;
use crate::scheduler::OutgoingNetworkMessage;

verus! {

/// The port of the socket in slot `fd` of the process, if it is one.
pub open spec fn socket_port_of(pd: ProcessData, fd: i32) -> Option<u16> {
    if fd_in_range(fd) { port_of(pd.fd_table.slot(fd as int)) } else { None }
}

/// A fresh socket on `port`: not connected, not listening, nothing received.
pub open spec fn fresh_socket(e: Option<FDEntry>, port: u16, connected: bool) -> bool {
    e matches Some(FDEntry::Socket { local_port, connected: c, is_listener, buffer })
        && local_port == port && c == connected && !is_listener && buffer@.len() == 0
}

/// The last request queued by the process is `op`, on top of what was there.
pub open spec fn queued(old_q: Seq<OutgoingNetworkMessage>, new_q: Seq<OutgoingNetworkMessage>, pid: u64, op: NetworkOperation) -> bool {
    new_q == old_q.push(OutgoingNetworkMessage { pid, operation: op })
}

/// `sock_open`: a new stream or datagram socket on the next port of the
/// process, in the lowest free slot, whose number is written at
/// `sock_fd_out`. 1 (`EINVAL`) for another domain or type, 76 (`EMFILE`)
/// with no free slot (the port is used up all the same), 1 when the number
/// does not fit in memory (the socket stays).
pub fn wasi_sock_open(pd: &mut ProcessData, mem: &mut [u8], domain: i32, socktype: i32, protocol: i32, sock_fd_out: u32) -> (r: i32)
    requires
        old(pd).next_port < u16::MAX,
    ensures
        final(pd).nat_table == old(pd).nat_table,
        final(pd).network_queue == old(pd).network_queue,
        final(pd).state == old(pd).state,
        (domain != 1 && domain != 2) || (socktype != 1 && socktype != 2) ==> r == 1
            && final(pd).fd_table == old(pd).fd_table && final(pd).next_port == old(pd).next_port
            && final(mem)@ == old(mem)@,
        (domain == 1 || domain == 2) && (socktype == 1 || socktype == 2) ==> ({
            let port = (old(pd).next_port + 1) as u16;
            let fd = old(pd).fd_table.spec_lowest_free();
            &&& final(pd).next_port == port
            &&& if fd == -1 {
                r == 76 && final(pd).fd_table == old(pd).fd_table && final(mem)@ == old(mem)@
            } else {
                &&& final(pd).fd_table.entries@ == old(pd).fd_table.entries@.update(fd as int, final(pd).fd_table.slot(fd as int))
                &&& fresh_socket(final(pd).fd_table.slot(fd as int), port, false)
                &&& if fits(old(mem)@.len() as int, sock_fd_out as int, 4) {
                    r == 0 && final(mem)@ == spliced(old(mem)@, sock_fd_out as int, spec_u32_to_le_bytes(fd as u32))
                } else {
                    r == 1 && final(mem)@ == old(mem)@
                }
            }
        }),
{
    if domain != 1 && domain != 2 {
        return 1;
    }
    if socktype != 1 && socktype != 2 {
        return 1;
    }
    let port = pd.take_port();
    let fd = pd.fd_table.allocate_fd();
    if fd < 0 {
        return 76;
    }
    pd.fd_table.install(fd as usize, FDEntry::Socket { local_port: port, connected: false, is_listener: false, buffer: Vec::new() });
    store_u32(mem, sock_fd_out as usize, fd as u32)
}

/// `sock_send`, before the process blocks: queues a send of the
/// `si_data_len` bytes at `si_data` from the socket `fd`, giving their
/// count, which the caller writes back once the process runs again.
/// 1 (`EINVAL`) when `fd` is not a socket.
pub fn sock_send_request(pd: &mut ProcessData, mem: &[u8], fd: i32, si_data: u32, si_data_len: u32) -> (r: Result<u32, i32>)
    requires
        fits(mem@.len() as int, si_data as int, si_data_len as int),
    ensures
        final(pd).fd_table == old(pd).fd_table,
        final(pd).nat_table == old(pd).nat_table,
        final(pd).id == old(pd).id,
        final(pd).next_port == old(pd).next_port,
        final(pd).state == old(pd).state,
        socket_port_of(*old(pd), fd) is None ==> r == Err::<u32, i32>(1) && final(pd).network_queue == old(pd).network_queue,
        socket_port_of(*old(pd), fd) matches Some(port) ==> r == Ok::<u32, i32>(si_data_len)
            && final(pd).network_queue@.len() == old(pd).network_queue@.len() + 1
            && final(pd).network_queue@.drop_last() == old(pd).network_queue@
            && final(pd).network_queue@.last().pid == old(pd).id
            && (final(pd).network_queue@.last().operation matches NetworkOperation::Send { src_port, data }
                && src_port == port && data@ == mem@.subrange(si_data as int, si_data + si_data_len)),
{
    let _n = mem.len();
    let data = slice_to_vec(slice_subrange(mem, si_data as usize, si_data as usize + si_data_len as usize));
    let port = match pd.fd_table.socket_port(fd) {
        Some(p) => p,
        None => return Err(1),
    };
    pd.queue_request(NetworkOperation::Send { src_port: port, data });
    assert(pd.network_queue@.drop_last() =~= old(pd).network_queue@);
    Ok(si_data_len)
}

/// `sock_close`, before the process blocks: queues a close of the socket
/// `fd`, and 0; 1 (`EINVAL`) when `fd` is not a socket.
pub fn sock_close_request(pd: &mut ProcessData, fd: i32) -> (r: i32)
    ensures
        final(pd).fd_table == old(pd).fd_table,
        final(pd).nat_table == old(pd).nat_table,
        final(pd).next_port == old(pd).next_port,
        final(pd).id == old(pd).id,
        socket_port_of(*old(pd), fd) is None ==> r == 1 && final(pd).network_queue == old(pd).network_queue,
        socket_port_of(*old(pd), fd) matches Some(port) ==> r == 0
            && queued(old(pd).network_queue@, final(pd).network_queue@, old(pd).id, NetworkOperation::Close { src_port: port }),
{
    match pd.fd_table.socket_port(fd) {
        Some(port) => {
            pd.queue_request(NetworkOperation::Close { src_port: port });
            0
        },
        None => 1,
    }
}

/// `sock_listen`, before the process blocks: queues a listen on the socket
/// `fd`, giving its port; `Err(1)` when `fd` is not a socket.
pub fn sock_listen_request(pd: &mut ProcessData, fd: i32) -> (r: Result<u16, i32>)
    ensures
        final(pd).fd_table == old(pd).fd_table,
        final(pd).nat_table == old(pd).nat_table,
        final(pd).next_port == old(pd).next_port,
        final(pd).id == old(pd).id,
        socket_port_of(*old(pd), fd) is None ==> r == Err::<u16, i32>(1) && final(pd).network_queue == old(pd).network_queue,
        socket_port_of(*old(pd), fd) matches Some(port) ==> r == Ok::<u16, i32>(port)
            && queued(old(pd).network_queue@, final(pd).network_queue@, old(pd).id, NetworkOperation::Listen { src_port: port }),
{
    match pd.fd_table.socket_port(fd) {
        Some(port) => {
            pd.queue_request(NetworkOperation::Listen { src_port: port });
            Ok(port)
        },
        None => Err(1),
    }
}

/// `sock_listen`, once the process runs again: the listen took when the
/// consensus node has mapped the port; the socket `fd` then becomes a
/// listener and the result is 0, else 1 (`EINVAL`).
pub fn sock_listen_finish(pd: &mut ProcessData, fd: i32, src_port: u16) -> (r: i32)
    requires
        old(pd).nat_table.wf(),
    ensures
        final(pd).nat_table == old(pd).nat_table,
        final(pd).network_queue == old(pd).network_queue,
        old(pd).nat_table.ports().contains_key(key(old(pd).id, src_port)) ==> r == 0
            && (fd_in_range(fd) ==> final(pd).fd_table.entries@
                == old(pd).fd_table.entries@.update(fd as int, as_listener(old(pd).fd_table.slot(fd as int))))
            && (!fd_in_range(fd) ==> final(pd).fd_table == old(pd).fd_table),
        !old(pd).nat_table.ports().contains_key(key(old(pd).id, src_port)) ==> r == 1
            && final(pd).fd_table == old(pd).fd_table,
{
    if pd.nat_table.has_port_mapping(pd.id, src_port) {
        if fd >= 0 && (fd as usize) < MAX_FDS {
            pd.fd_table.set_listener(fd as usize);
        }
        0
    } else {
        1
    }
}

/// `sock_accept`, before the process blocks: the connection it may get is
/// given the lowest free slot, as a connected socket on the next port, and
/// an accept on the socket `fd` is queued. Gives the listening port, the
/// new slot and the new port; `Err(1)` when `fd` is not a socket,
/// `Err(76)` (`EMFILE`) with no free slot.
pub fn sock_accept_request(pd: &mut ProcessData, fd: i32) -> (r: Result<(u16, i32, u16), i32>)
    requires
        old(pd).next_port < u16::MAX,
    ensures
        final(pd).nat_table == old(pd).nat_table,
        final(pd).id == old(pd).id,
        socket_port_of(*old(pd), fd) is None || old(pd).fd_table.spec_lowest_free() == -1 ==> r is Err
            && final(pd).fd_table == old(pd).fd_table && final(pd).next_port == old(pd).next_port
            && final(pd).network_queue == old(pd).network_queue,
        socket_port_of(*old(pd), fd) is None ==> r == Err::<(u16, i32, u16), i32>(1),
        socket_port_of(*old(pd), fd) is Some && old(pd).fd_table.spec_lowest_free() == -1
            ==> r == Err::<(u16, i32, u16), i32>(76),
        socket_port_of(*old(pd), fd) is Some && old(pd).fd_table.spec_lowest_free() != -1 ==> ({
            let port = socket_port_of(*old(pd), fd)->0;
            let new_fd = old(pd).fd_table.spec_lowest_free();
            let new_port = (old(pd).next_port + 1) as u16;
            &&& r == Ok::<(u16, i32, u16), i32>((port, new_fd, new_port))
            &&& final(pd).next_port == new_port
            &&& final(pd).fd_table.entries@ == old(pd).fd_table.entries@.update(new_fd as int, final(pd).fd_table.slot(new_fd as int))
            &&& fresh_socket(final(pd).fd_table.slot(new_fd as int), new_port, true)
            &&& queued(old(pd).network_queue@, final(pd).network_queue@, old(pd).id,
                NetworkOperation::Accept { src_port: port, new_port })
        }),
{
    let port = match pd.fd_table.socket_port(fd) {
        Some(p) => p,
        None => return Err(1),
    };
    let new_fd = pd.fd_table.allocate_fd();
    if new_fd < 0 {
        return Err(76);
    }
    let new_port = pd.take_port();
    pd.fd_table.install(new_fd as usize, FDEntry::Socket { local_port: new_port, connected: true, is_listener: false, buffer: Vec::new() });
    pd.queue_request(NetworkOperation::Accept { src_port: port, new_port });
    Ok((port, new_fd, new_port))
}

/// `sock_accept`, once the process runs again: with a connection pending on
/// the listening port, the new slot's number is written at `fd_out`, one
/// pending connection is taken, and the result is 0 (1 when the number does
/// not fit, with nothing taken). Without one, the new slot is freed, the
/// port handed back, and the result is 11 (`EAGAIN`).
pub fn sock_accept_finish(pd: &mut ProcessData, mem: &mut [u8], src_port: u16, new_fd: i32, fd_out: u32) -> (r: i32)
    requires
        old(pd).nat_table.wf(),
        fd_in_range(new_fd),
        old(pd).next_port >= 1,
    ensures
        final(pd).nat_table.wf(),
        final(pd).network_queue == old(pd).network_queue,
        ({
            let k = key(old(pd).id, src_port);
            let pending = old(pd).nat_table.listener_map().contains_key(k)
                && old(pd).nat_table.listener_map()[k].pending_accepts > 0;
            if pending {
                &&& final(pd).fd_table == old(pd).fd_table
                &&& final(pd).next_port == old(pd).next_port
                &&& if fits(old(mem)@.len() as int, fd_out as int, 4) {
                    &&& r == 0
                    &&& final(mem)@ == spliced(old(mem)@, fd_out as int, spec_u32_to_le_bytes(new_fd as u32))
                    &&& final(pd).nat_table.listener_map() == old(pd).nat_table.listener_map().insert(k,
                        crate::nat_table::NatListener {
                            pending_accepts: (old(pd).nat_table.listener_map()[k].pending_accepts - 1) as usize,
                            ..old(pd).nat_table.listener_map()[k]
                        })
                } else {
                    r == 1 && final(mem)@ == old(mem)@ && final(pd).nat_table == old(pd).nat_table
                }
            } else {
                &&& r == 11
                &&& final(mem)@ == old(mem)@
                &&& final(pd).nat_table == old(pd).nat_table
                &&& final(pd).fd_table.entries@ == old(pd).fd_table.entries@.update(new_fd as int, None)
                &&& final(pd).next_port == old(pd).next_port - 1
            }
        }),
{
    if pd.nat_table.has_pending_accept(pd.id, src_port) {
        let w = store_u32(mem, fd_out as usize, new_fd as u32);
        if w != 0 {
            return 1;
        }
        pd.nat_table.clear_pending_accept(pd.id, src_port);
        0
    } else {
        pd.fd_table.deallocate_fd(new_fd);
        pd.next_port = pd.next_port - 1;
        11
    }
}

impl FDTable {
    /// Takes everything out of the buffer of the socket in slot `i`.
    pub fn drain_socket(&mut self, i: usize) -> (data: Vec<u8>)
        requires
            i < MAX_FDS,
            old(self).slot(i as int) matches Some(FDEntry::Socket { .. }),
        ensures
            old(self).slot(i as int) matches Some(FDEntry::Socket { local_port, connected, is_listener, buffer })
                && data@ == buffer@
                && (final(self).slot(i as int) matches Some(FDEntry::Socket { local_port: p, connected: c, is_listener: l, buffer: b })
                && p == local_port && c == connected && l == is_listener && b@.len() == 0),
            final(self).entries@ == old(self).entries@.update(i as int, final(self).slot(i as int)),
    {
        let mut entry: Option<FDEntry> = None;
        std::mem::swap(&mut entry, &mut self.entries[i]);
        let data = match entry {
            Some(FDEntry::Socket { local_port, connected, is_listener, buffer }) => {
                self.entries[i] = Some(FDEntry::Socket { local_port, connected, is_listener, buffer: Vec::new() });
                buffer
            },
            other => {
                self.entries[i] = other;
                Vec::new()
            },
        };
        assert(self.entries@ =~= old(self).entries@.update(i as int, self.slot(i as int)));
        data
    }
}

/// The received bytes of the socket in `e`.
pub open spec fn received(e: Option<FDEntry>) -> Seq<u8> {
    match e {
        Some(FDEntry::Socket { buffer, .. }) => buffer@,
        _ => Seq::empty(),
    }
}

/// `sock_recv`: hands the bytes received on socket `fd` to the guest: as
/// many as fit in `ri_data_len` go to `ri_data_ptr`, their count to
/// `ro_datalen_ptr` and flags 0 to `ro_flags_ptr`; the socket's buffer is
/// emptied in any case. 1 (`EINVAL`) when `fd` is not a socket or a write
/// does not fit (what was written stays), 11 (`EAGAIN`) when nothing was
/// received.
pub fn wasi_sock_recv(pd: &mut ProcessData, mem: &mut [u8], fd: u32, ri_data_ptr: u32, ri_data_len: u32,
    ro_datalen_ptr: u32, ro_flags_ptr: u32) -> (r: i32)
    ensures
        final(pd).nat_table == old(pd).nat_table,
        final(pd).network_queue == old(pd).network_queue,
        !(fd < MAX_FDS && port_of(old(pd).fd_table.slot(fd as int)) is Some) ==> r == 1
            && final(pd).fd_table == old(pd).fd_table && final(mem)@ == old(mem)@,
        fd < MAX_FDS && port_of(old(pd).fd_table.slot(fd as int)) is Some ==> ({
            let data = received(old(pd).fd_table.slot(fd as int));
            let n = min_int(data.len() as int, ri_data_len as int);
            let m1 = spliced(old(mem)@, ri_data_ptr as int, data.take(n));
            let m2 = spliced(m1, ro_datalen_ptr as int, spec_u32_to_le_bytes(n as u32));
            if data.len() == 0 {
                r == 11 && final(pd).fd_table == old(pd).fd_table && final(mem)@ == old(mem)@
            } else {
                &&& final(pd).fd_table.entries@ == old(pd).fd_table.entries@.update(fd as int, final(pd).fd_table.slot(fd as int))
                &&& received(final(pd).fd_table.slot(fd as int)).len() == 0
                &&& port_of(final(pd).fd_table.slot(fd as int)) == port_of(old(pd).fd_table.slot(fd as int))
                &&& if !fits(old(mem)@.len() as int, ri_data_ptr as int, n) {
                    r == 1 && final(mem)@ == old(mem)@
                } else if !fits(m1.len() as int, ro_datalen_ptr as int, 4) {
                    r == 1 && final(mem)@ == m1
                } else if !fits(m2.len() as int, ro_flags_ptr as int, 4) {
                    r == 1 && final(mem)@ == m2
                } else {
                    r == 0 && final(mem)@ == spliced(m2, ro_flags_ptr as int, spec_u32_to_le_bytes(0))
                }
            }
        }),
{
    if fd as usize >= MAX_FDS {
        return 1;
    }
    let i = fd as usize;
    let empty = match &pd.fd_table.entries[i] {
        Some(FDEntry::Socket { buffer, .. }) => buffer.len() == 0,
        _ => return 1,
    };
    if empty {
        return 11;
    }
    let data = pd.fd_table.drain_socket(i);
    let n: usize = if data.len() <= ri_data_len as usize { data.len() } else { ri_data_len as usize };
    if !fits_in(mem.len(), ri_data_ptr as usize, n) {
        return 1;
    }
    let chunk = slice_subrange(data.as_slice(), 0, n);
    assert(chunk@ =~= data@.take(n as int));
    write_bytes(mem, ri_data_ptr as usize, chunk);
    if store_u32(mem, ro_datalen_ptr as usize, #[verifier::truncate] (n as u32)) != 0 {
        return 1;
    }
    store_u32(mem, ro_flags_ptr as usize, 0)
}

/// `a.b.c.d`, each part in decimal.
pub open spec fn dotted_quad(a: u8, b: u8, c: u8, d: u8) -> Seq<char> {
    decimal(a as nat) + seq!['.'] + decimal(b as nat) + seq!['.'] + decimal(c as nat) + seq!['.'] + decimal(d as nat)
}

fn dotted(a: u8, b: u8, c: u8, d: u8) -> (s: String)
    ensures
        s@ == dotted_quad(a, b, c, d),
{
    proof {
        reveal_strlit(".");
    }
    let mut s = String::new();
    push_decimal(&mut s, a as u64);
    s.append(".");
    push_decimal(&mut s, b as u64);
    s.append(".");
    push_decimal(&mut s, c as u64);
    s.append(".");
    push_decimal(&mut s, d as u64);
    assert(s@ =~= dotted_quad(a, b, c, d));
    s
}

/// `sock_connect`, before the process blocks: reads the IPv4 `sockaddr_in`
/// of `addr_len` bytes at `addr` (port in network byte order at offset 2,
/// address at offset 4) and queues a connection from the socket `fd` to it;
/// 0. 1 (`EINVAL`) when the address does not lie in memory, is shorter than
/// 16 bytes, or `fd` is not a socket.
pub fn sock_connect_request(pd: &mut ProcessData, mem: &[u8], fd: i32, addr: u32, addr_len: u32) -> (r: i32)
    ensures
        final(pd).fd_table == old(pd).fd_table,
        final(pd).nat_table == old(pd).nat_table,
        final(pd).next_port == old(pd).next_port,
        final(pd).id == old(pd).id,
        !fits(mem@.len() as int, addr as int, addr_len as int) || addr_len < 16 || socket_port_of(*old(pd), fd) is None
            ==> r == 1 && final(pd).network_queue == old(pd).network_queue,
        socket_port_of(*old(pd), fd) is Some && fits(mem@.len() as int, addr as int, addr_len as int) && addr_len >= 16
            ==> r == 0 && final(pd).network_queue@.drop_last() == old(pd).network_queue@
                && final(pd).network_queue@.len() == old(pd).network_queue@.len() + 1
                && final(pd).network_queue@.last().pid == old(pd).id
                && (final(pd).network_queue@.last().operation matches NetworkOperation::Connect { dest_addr, dest_port, src_port }
                    && Some(src_port) == socket_port_of(*old(pd), fd)
                    && dest_port == mem@[addr + 2] * 256 + mem@[addr + 3]
                    && dest_addr@ == dotted_quad(mem@[addr + 4], mem@[addr + 5], mem@[addr + 6], mem@[addr + 7])),
{
    if !fits_in(mem.len(), addr as usize, addr_len as usize) {
        return 1;
    }
    if addr_len < 16 {
        return 1;
    }
    let a = addr as usize;
    let dest_port: u16 = (mem[a + 2] as u16) * 256 + (mem[a + 3] as u16);
    let dest_addr = dotted(mem[a + 4], mem[a + 5], mem[a + 6], mem[a + 7]);
    let port = match pd.fd_table.socket_port(fd) {
        Some(p) => p,
        None => return 1,
    };
    pd.queue_request(NetworkOperation::Connect { dest_addr, dest_port, src_port: port });
    assert(pd.network_queue@.drop_last() =~= old(pd).network_queue@);
    0
}

} // verus!
