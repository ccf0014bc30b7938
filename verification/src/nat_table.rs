use vstd::prelude::*;
use crate::keyed::{KeyedTable, PortKey};
use crate::commands::{Command, NetworkOperation};
use crate::record::{record_bytes, write_record};
use vstd::bytes::*;

verus! {

/// A connection the consensus node holds for a process; the socket itself
/// stays with the caller, under `consensus_port`.
pub struct NatEntry {
    pub process_id: u64,
    pub process_port: u16,
    pub consensus_port: u16,
    /// Data received and not yet handed to the process.
    pub buffer: Vec<u8>,
}

/// A listening socket the consensus node holds for a process.
pub struct NatListener {
    pub process_id: u64,
    pub process_port: u16,
    pub consensus_port: u16,
    /// Connections accepted ahead of a request for them.
    pub pending_accepts: usize,
}

/// A message for the runtime: process, port, data, and whether it announces
/// a new connection.
pub type NatMessage = (u64, u16, Vec<u8>, bool);

/// First consensus-side port handed out.
pub const FIRST_NAT_PORT: u16 = 10000;

/// The mapping between process ports and the consensus node's own ports.
pub struct NatTable {
    port_mappings: KeyedTable<u16, NatEntry>,
    process_ports: KeyedTable<PortKey, u16>,
    listeners: KeyedTable<PortKey, NatListener>,
    connections: KeyedTable<PortKey, u16>,
    next_port: u16,
    waiting_accepts: KeyedTable<PortKey, u16>,
    waiting_recvs: KeyedTable<PortKey, bool>,
}

/// What `close` found for a process port.
pub enum CloseOutcome {
    /// A connection, under this consensus port.
    Connection(u16),
    /// A listener, under this consensus port.
    Listener(u16),
    NotFound,
}

pub open spec fn key(pid: u64, port: u16) -> PortKey {
    PortKey { pid, port }
}

impl NatTable {
    /// Connections by consensus port.
    pub closed spec fn entries(&self) -> Map<u16, NatEntry> {
        self.port_mappings.view()
    }

    /// Consensus port of each mapped process port.
    pub closed spec fn ports(&self) -> Map<PortKey, u16> {
        self.process_ports.view()
    }

    pub closed spec fn listener_map(&self) -> Map<PortKey, NatListener> {
        self.listeners.view()
    }

    /// Consensus port of each process port that is a connection.
    pub closed spec fn connection_map(&self) -> Map<PortKey, u16> {
        self.connections.view()
    }

    /// Requested port of each process port waiting for an accept.
    pub closed spec fn accept_waits(&self) -> Map<PortKey, u16> {
        self.waiting_accepts.view()
    }

    pub closed spec fn recv_waits(&self) -> Map<PortKey, bool> {
        self.waiting_recvs.view()
    }

    /// The next consensus port to hand out.
    pub closed spec fn next(&self) -> u16 {
        self.next_port
    }

    pub closed spec fn wf(&self) -> bool {
        &&& self.port_mappings.wf()
        &&& self.process_ports.wf()
        &&& self.listeners.wf()
        &&& self.connections.wf()
        &&& self.waiting_accepts.wf()
        &&& self.waiting_recvs.wf()
    }

    pub fn new() -> (t: NatTable)
        ensures
            t.wf(),
            t.entries() == Map::<u16, NatEntry>::empty(),
            t.ports() == Map::<PortKey, u16>::empty(),
            t.listener_map() == Map::<PortKey, NatListener>::empty(),
            t.connection_map() == Map::<PortKey, u16>::empty(),
            t.accept_waits() == Map::<PortKey, u16>::empty(),
            t.recv_waits() == Map::<PortKey, bool>::empty(),
            t.next() == FIRST_NAT_PORT,
    {
        NatTable {
            port_mappings: KeyedTable::new(),
            process_ports: KeyedTable::new(),
            listeners: KeyedTable::new(),
            connections: KeyedTable::new(),
            next_port: FIRST_NAT_PORT,
            waiting_accepts: KeyedTable::new(),
            waiting_recvs: KeyedTable::new(),
        }
    }

    /// Whether another consensus port can be handed out.
    pub fn can_allocate(&self) -> (b: bool)
        ensures
            b == (self.next() < u16::MAX),
    {
        self.next_port < u16::MAX
    }

    fn allocate_port(&mut self) -> (p: u16)
        requires
            old(self).next() < u16::MAX,
        ensures
            p == old(self).next(),
            final(self).next() == old(self).next() + 1,
            final(self).port_mappings == old(self).port_mappings,
            final(self).process_ports == old(self).process_ports,
            final(self).listeners == old(self).listeners,
            final(self).connections == old(self).connections,
            final(self).waiting_accepts == old(self).waiting_accepts,
            final(self).waiting_recvs == old(self).waiting_recvs,
    {
        let port = self.next_port;
        self.next_port = self.next_port + 1;
        port
    }

    pub fn is_waiting_for_accept(&self, pid: u64, src_port: u16) -> (b: bool)
        requires
            self.wf(),
        ensures
            b == self.accept_waits().contains_key(key(pid, src_port)),
    {
        self.waiting_accepts.contains_key(&PortKey { pid, port: src_port })
    }

    pub fn is_waiting_for_recv(&self, pid: u64, src_port: u16) -> (b: bool)
        requires
            self.wf(),
        ensures
            b == (self.recv_waits().contains_key(key(pid, src_port)) && self.recv_waits()[key(pid, src_port)]),
    {
        match self.waiting_recvs.get(&PortKey { pid, port: src_port }) {
            Some(w) => *w,
            None => false,
        }
    }

    pub fn set_waiting_accept(&mut self, pid: u64, src_port: u16, new_port: u16)
        requires
            old(self).wf(),
        ensures
            final(self).wf(),
            final(self).accept_waits() == old(self).accept_waits().insert(key(pid, src_port), new_port),
            final(self).entries() == old(self).entries(),
            final(self).ports() == old(self).ports(),
            final(self).listener_map() == old(self).listener_map(),
            final(self).connection_map() == old(self).connection_map(),
            final(self).recv_waits() == old(self).recv_waits(),
            final(self).next() == old(self).next(),
    {
        self.waiting_accepts.insert(PortKey { pid, port: src_port }, new_port);
    }

    pub fn set_waiting_recv(&mut self, pid: u64, src_port: u16)
        requires
            old(self).wf(),
        ensures
            final(self).wf(),
            final(self).recv_waits() == old(self).recv_waits().insert(key(pid, src_port), true),
            final(self).entries() == old(self).entries(),
            final(self).ports() == old(self).ports(),
            final(self).listener_map() == old(self).listener_map(),
            final(self).connection_map() == old(self).connection_map(),
            final(self).accept_waits() == old(self).accept_waits(),
            final(self).next() == old(self).next(),
    {
        self.waiting_recvs.insert(PortKey { pid, port: src_port }, true);
    }

    pub fn clear_waiting_accept(&mut self, pid: u64, src_port: u16)
        requires
            old(self).wf(),
        ensures
            final(self).wf(),
            final(self).accept_waits() == old(self).accept_waits().remove(key(pid, src_port)),
            final(self).entries() == old(self).entries(),
            final(self).ports() == old(self).ports(),
            final(self).listener_map() == old(self).listener_map(),
            final(self).connection_map() == old(self).connection_map(),
            final(self).recv_waits() == old(self).recv_waits(),
            final(self).next() == old(self).next(),
    {
        let _ = self.waiting_accepts.remove(&PortKey { pid, port: src_port });
    }

    pub fn clear_waiting_recv(&mut self, pid: u64, src_port: u16)
        requires
            old(self).wf(),
        ensures
            final(self).wf(),
            final(self).recv_waits() == old(self).recv_waits().remove(key(pid, src_port)),
            final(self).entries() == old(self).entries(),
            final(self).ports() == old(self).ports(),
            final(self).listener_map() == old(self).listener_map(),
            final(self).connection_map() == old(self).connection_map(),
            final(self).accept_waits() == old(self).accept_waits(),
            final(self).next() == old(self).next(),
    {
        let _ = self.waiting_recvs.remove(&PortKey { pid, port: src_port });
    }

    pub fn has_pending_accept(&self, pid: u64, src_port: u16) -> (b: bool)
        requires
            self.wf(),
        ensures
            b == (self.listener_map().contains_key(key(pid, src_port))
                && self.listener_map()[key(pid, src_port)].pending_accepts > 0),
    {
        match self.listeners.get(&PortKey { pid, port: src_port }) {
            Some(l) => l.pending_accepts > 0,
            None => false,
        }
    }

    pub fn has_port_mapping(&self, pid: u64, src_port: u16) -> (b: bool)
        requires
            self.wf(),
        ensures
            b == self.ports().contains_key(key(pid, src_port)),
    {
        self.process_ports.contains_key(&PortKey { pid, port: src_port })
    }

    pub fn has_connection(&self, pid: u64, port: u16) -> (b: bool)
        requires
            self.wf(),
        ensures
            b == self.connection_map().contains_key(key(pid, port)),
    {
        self.connections.contains_key(&PortKey { pid, port })
    }

    pub fn has_listener(&self, pid: u64, src_port: u16) -> (b: bool)
        requires
            self.wf(),
        ensures
            b == self.listener_map().contains_key(key(pid, src_port)),
    {
        self.listeners.contains_key(&PortKey { pid, port: src_port })
    }

    /// Maps `(pid, src_port)` to the next consensus port.
    pub fn add_port_mapping(&mut self, pid: u64, src_port: u16)
        requires
            old(self).wf(),
            old(self).next() < u16::MAX,
        ensures
            final(self).wf(),
            final(self).ports() == old(self).ports().insert(key(pid, src_port), old(self).next()),
            final(self).next() == old(self).next() + 1,
            final(self).entries() == old(self).entries(),
            final(self).listener_map() == old(self).listener_map(),
            final(self).connection_map() == old(self).connection_map(),
            final(self).accept_waits() == old(self).accept_waits(),
            final(self).recv_waits() == old(self).recv_waits(),
    {
        let consensus_port = self.allocate_port();
        self.process_ports.insert(PortKey { pid, port: src_port }, consensus_port);
    }

    pub fn get_waiting_port(&self, pid: u64, src_port: u16) -> (r: Option<u16>)
        requires
            self.wf(),
        ensures
            r == (if self.accept_waits().contains_key(key(pid, src_port)) {
                Some(self.accept_waits()[key(pid, src_port)])
            } else {
                None
            }),
    {
        match self.waiting_accepts.get(&PortKey { pid, port: src_port }) {
            Some(p) => Some(*p),
            None => None,
        }
    }

    pub fn peek_waiting_port(&self, pid: u64, src_port: u16) -> (r: Option<u16>)
        requires
            self.wf(),
        ensures
            r == (if self.accept_waits().contains_key(key(pid, src_port)) {
                Some(self.accept_waits()[key(pid, src_port)])
            } else {
                None
            }),
    {
        self.get_waiting_port(pid, src_port)
    }

    /// Hands out the next consensus port, for a listener or an outgoing
    /// connection about to be opened on it.
    pub fn reserve_port(&mut self) -> (p: u16)
        requires
            old(self).wf(),
            old(self).next() < u16::MAX,
        ensures
            final(self).wf(),
            p == old(self).next(),
            final(self).next() == old(self).next() + 1,
            final(self).entries() == old(self).entries(),
            final(self).ports() == old(self).ports(),
            final(self).listener_map() == old(self).listener_map(),
            final(self).connection_map() == old(self).connection_map(),
            final(self).accept_waits() == old(self).accept_waits(),
            final(self).recv_waits() == old(self).recv_waits(),
    {
        self.allocate_port()
    }

    /// Records the listener now bound on `consensus_port` for `(pid, src_port)`.
    pub fn listen_bound(&mut self, pid: u64, src_port: u16, consensus_port: u16)
        requires
            old(self).wf(),
        ensures
            final(self).wf(),
            final(self).listener_map() == old(self).listener_map().insert(key(pid, src_port),
                NatListener { process_id: pid, process_port: src_port, consensus_port, pending_accepts: 0 }),
            final(self).ports() == old(self).ports().insert(key(pid, src_port), consensus_port),
            final(self).entries() == old(self).entries(),
            final(self).connection_map() == old(self).connection_map(),
            final(self).accept_waits() == old(self).accept_waits(),
            final(self).recv_waits() == old(self).recv_waits(),
            final(self).next() == old(self).next(),
    {
        let k = PortKey { pid, port: src_port };
        self.listeners.insert(k, NatListener { process_id: pid, process_port: src_port, consensus_port, pending_accepts: 0 });
        self.process_ports.insert(k, consensus_port);
    }

    /// Adds a fresh connection entry for `(pid, process_port)` under
    /// `consensus_port`, as a connection and as a port mapping.
    fn add_connection(&mut self, pid: u64, process_port: u16, consensus_port: u16)
        requires
            old(self).wf(),
        ensures
            final(self).wf(),
            final(self).entries() == old(self).entries().insert(consensus_port, final(self).entries()[consensus_port]),
            new_entry(final(self).entries()[consensus_port], pid, process_port, consensus_port),
            final(self).ports() == old(self).ports().insert(key(pid, process_port), consensus_port),
            final(self).connection_map() == old(self).connection_map().insert(key(pid, process_port), consensus_port),
            final(self).listener_map() == old(self).listener_map(),
            final(self).accept_waits() == old(self).accept_waits(),
            final(self).recv_waits() == old(self).recv_waits(),
            final(self).next() == old(self).next(),
    {
        let k = PortKey { pid, port: process_port };
        self.port_mappings.insert(consensus_port, NatEntry {
            process_id: pid,
            process_port,
            consensus_port,
            buffer: Vec::new(),
        });
        self.process_ports.insert(k, consensus_port);
        self.connections.insert(k, consensus_port);
    }

    /// Records the connection accepted on the listener of `(pid, src_port)`
    /// for the process port `new_port`; the accept no longer waits. Gives the
    /// consensus port that now stands for the connection.
    pub fn accept_established(&mut self, pid: u64, src_port: u16, new_port: u16) -> (cp: u16)
        requires
            old(self).wf(),
            old(self).next() < u16::MAX,
        ensures
            final(self).wf(),
            cp == old(self).next(),
            final(self).next() == old(self).next() + 1,
            final(self).entries() == old(self).entries().insert(cp, final(self).entries()[cp]),
            new_entry(final(self).entries()[cp], pid, new_port, cp),
            final(self).ports() == old(self).ports().insert(key(pid, new_port), cp),
            final(self).connection_map() == old(self).connection_map().insert(key(pid, new_port), cp),
            final(self).accept_waits() == old(self).accept_waits().remove(key(pid, src_port)),
            final(self).listener_map() == old(self).listener_map(),
            final(self).recv_waits() == old(self).recv_waits(),
    {
        let cp = self.allocate_port();
        self.add_connection(pid, new_port, cp);
        let _ = self.waiting_accepts.remove(&PortKey { pid, port: src_port });
        cp
    }

    /// Records the outgoing connection of `(pid, src_port)` opened on
    /// `consensus_port`.
    pub fn connect_established(&mut self, pid: u64, src_port: u16, consensus_port: u16)
        requires
            old(self).wf(),
        ensures
            final(self).wf(),
            final(self).entries() == old(self).entries().insert(consensus_port, final(self).entries()[consensus_port]),
            new_entry(final(self).entries()[consensus_port], pid, src_port, consensus_port),
            final(self).ports() == old(self).ports().insert(key(pid, src_port), consensus_port),
            final(self).connection_map() == old(self).connection_map().insert(key(pid, src_port), consensus_port),
            final(self).listener_map() == old(self).listener_map(),
            final(self).accept_waits() == old(self).accept_waits(),
            final(self).recv_waits() == old(self).recv_waits(),
            final(self).next() == old(self).next(),
    {
        self.add_connection(pid, src_port, consensus_port);
    }

    /// The consensus port whose socket data sent from `(pid, src_port)` is
    /// written to: the connection of that port, else its mapped port; `None`
    /// where there is no such port or no entry behind it.
    pub fn send_route(&self, pid: u64, src_port: u16) -> (r: Option<u16>)
        requires
            self.wf(),
        ensures
            r == spec_send_route(self.connection_map(), self.ports(), self.entries(), key(pid, src_port)),
    {
        let k = PortKey { pid, port: src_port };
        match self.connections.get(&k) {
            Some(cp) => {
                if self.port_mappings.contains_key(cp) {
                    Some(*cp)
                } else {
                    None
                }
            },
            None => match self.process_ports.get(&k) {
                Some(cp) => {
                    if self.port_mappings.contains_key(cp) {
                        Some(*cp)
                    } else {
                        None
                    }
                },
                None => None,
            },
        }
    }

    /// A receive by `(pid, src_port)`: buffered data of its connection is
    /// handed out in one message and the receive no longer waits; with
    /// nothing buffered the receive waits. `false` where the port has no
    /// connection entry.
    pub fn recv(&mut self, pid: u64, src_port: u16, messages: &mut Vec<NatMessage>) -> (ok: bool)
        requires
            old(self).wf(),
        ensures
            final(self).wf(),
            ok == (old(self).connection_map().contains_key(key(pid, src_port))
                && old(self).entries().contains_key(old(self).connection_map()[key(pid, src_port)])),
            final(self).ports() == old(self).ports(),
            final(self).listener_map() == old(self).listener_map(),
            final(self).connection_map() == old(self).connection_map(),
            final(self).accept_waits() == old(self).accept_waits(),
            final(self).next() == old(self).next(),
            !ok ==> final(self).entries() == old(self).entries() && final(self).recv_waits() == old(self).recv_waits()
                && final(messages)@ == old(messages)@,
            ok ==> ({
                let cp = old(self).connection_map()[key(pid, src_port)];
                let e = old(self).entries()[cp];
                if e.buffer@.len() > 0 {
                    &&& pushed_one(old(messages)@, final(messages)@, pid, src_port, e.buffer@, false)
                    &&& final(self).entries() == old(self).entries().insert(cp, final(self).entries()[cp])
                    &&& same_entry_with_buffer(final(self).entries()[cp], e, seq![])
                    &&& final(self).recv_waits() == old(self).recv_waits().remove(key(pid, src_port))
                } else {
                    &&& final(messages)@ == old(messages)@
                    &&& final(self).entries() == old(self).entries()
                    &&& final(self).recv_waits() == old(self).recv_waits().insert(key(pid, src_port), true)
                }
            }),
    {
        let k = PortKey { pid, port: src_port };
        let cp = match self.connections.get(&k) {
            Some(cp) => *cp,
            None => return false,
        };
        match self.port_mappings.remove(&cp) {
            Some(mut e) => {
                if e.buffer.len() > 0 {
                    let ghost m = old(self).entries();
                    let ghost e0 = e;
                    let data = e.buffer.clone();
                    assert(data@ =~= e0.buffer@);
                    e.buffer.clear();
                    self.port_mappings.insert(cp, e);
                    assert(self.entries() =~= m.insert(cp, self.entries()[cp]));
                    let _ = self.waiting_recvs.remove(&k);
                    messages.push((pid, src_port, data, false));
                    assert(messages@.take(old(messages)@.len() as int) =~= old(messages)@);
                } else {
                    let ghost m = old(self).entries();
                    self.port_mappings.insert(cp, e);
                    assert(self.entries() =~= m);
                    self.waiting_recvs.insert(k, true);
                }
                true
            },
            None => false,
        }
    }

    /// Closes `(pid, src_port)`: a connection loses its entry and its
    /// connection mapping; otherwise a mapped port loses its entry, its
    /// mapping and its listener. The caller shuts down and drops the socket
    /// under the consensus port reported.
    pub fn close(&mut self, pid: u64, src_port: u16) -> (r: CloseOutcome)
        requires
            old(self).wf(),
        ensures
            final(self).wf(),
            final(self).accept_waits() == old(self).accept_waits(),
            final(self).recv_waits() == old(self).recv_waits(),
            final(self).next() == old(self).next(),
            ({
                let k = key(pid, src_port);
                if old(self).connection_map().contains_key(k) {
                    let cp = old(self).connection_map()[k];
                    &&& r == CloseOutcome::Connection(cp)
                    &&& final(self).entries() == old(self).entries().remove(cp)
                    &&& final(self).connection_map() == old(self).connection_map().remove(k)
                    &&& final(self).ports() == old(self).ports()
                    &&& final(self).listener_map() == old(self).listener_map()
                } else if old(self).ports().contains_key(k) {
                    let cp = old(self).ports()[k];
                    &&& r == CloseOutcome::Listener(cp)
                    &&& final(self).entries() == old(self).entries().remove(cp)
                    &&& final(self).ports() == old(self).ports().remove(k)
                    &&& final(self).listener_map() == old(self).listener_map().remove(k)
                    &&& final(self).connection_map() == old(self).connection_map()
                } else {
                    &&& r == CloseOutcome::NotFound
                    &&& final(self).entries() == old(self).entries()
                    &&& final(self).ports() == old(self).ports()
                    &&& final(self).listener_map() == old(self).listener_map()
                    &&& final(self).connection_map() == old(self).connection_map()
                }
            }),
    {
        let k = PortKey { pid, port: src_port };
        match self.connections.get(&k) {
            Some(cp) => {
                let cp = *cp;
                let _ = self.port_mappings.remove(&cp);
                let _ = self.connections.remove(&k);
                CloseOutcome::Connection(cp)
            },
            None => match self.process_ports.get(&k) {
                Some(cp) => {
                    let cp = *cp;
                    let _ = self.port_mappings.remove(&cp);
                    let _ = self.process_ports.remove(&k);
                    let _ = self.listeners.remove(&k);
                    CloseOutcome::Listener(cp)
                },
                None => CloseOutcome::NotFound,
            },
        }
    }

    /// The listeners whose process waits for an accept, each once.
    pub fn waiting_listener_keys(&self) -> (v: Vec<PortKey>)
        requires
            self.wf(),
        ensures
            forall|i: int, j: int| 0 <= i < j < v@.len() ==> v@[i] != v@[j],
            forall|k: PortKey| v@.contains(k) <==> (#[trigger] self.listener_map().contains_key(k)
                && self.accept_waits().contains_key(k)),
    {
        let keys = self.listeners.keys();
        let mut v: Vec<PortKey> = Vec::new();
        let mut i: usize = 0;
        while i < keys.len()
            invariant
                self.wf(),
                i <= keys@.len(),
                forall|a: int, b: int| 0 <= a < b < keys@.len() ==> keys@[a] != keys@[b],
                forall|k: PortKey| #[trigger] self.listener_map().contains_key(k) <==> keys@.contains(k),
                forall|a: int, b: int| 0 <= a < b < v@.len() ==> v@[a] != v@[b],
                forall|k: PortKey| v@.contains(k) <==> (keys@.take(i as int).contains(k)
                    && self.accept_waits().contains_key(k)),
            decreases keys@.len() - i,
        {
            let k = keys[i];
            let ghost before = v@;
            if self.waiting_accepts.contains_key(&k) {
                v.push(k);
                proof {
                    assert forall|a: int, b: int| 0 <= a < b < v@.len() implies v@[a] != v@[b] by {
                        if b == v@.len() - 1 {
                            assert(before.contains(before[a]));
                            let j = choose|j: int| 0 <= j < i && #[trigger] keys@.take(i as int)[j] == v@[a];
                            assert(keys@[j] == v@[a]);
                        }
                    }
                }
            }
            proof {
                assert(keys@.take(i + 1) =~= keys@.take(i as int).push(k));
                assert(!keys@.take(i as int).contains(k)) by {
                    if keys@.take(i as int).contains(k) {
                        let j = choose|j: int| 0 <= j < i && #[trigger] keys@.take(i as int)[j] == k;
                        assert(keys@[j] == keys@[i as int]);
                    }
                }
                assert forall|k2: PortKey| v@.contains(k2) <==> (keys@.take(i + 1).contains(k2)
                    && self.accept_waits().contains_key(k2)) by {
                    assert(keys@.take(i + 1).contains(k2) <==> (keys@.take(i as int).contains(k2) || k2 == k)) by {
                        if keys@.take(i + 1).contains(k2) && k2 != k {
                            let j = choose|j: int| 0 <= j < i + 1 && #[trigger] keys@.take(i + 1)[j] == k2;
                            assert(keys@.take(i as int)[j] == k2);
                        }
                        if keys@.take(i as int).contains(k2) {
                            let j = choose|j: int| 0 <= j < i && #[trigger] keys@.take(i as int)[j] == k2;
                            assert(keys@.take(i + 1)[j] == k2);
                        }
                        if k2 == k {
                            assert(keys@.take(i + 1)[i as int] == k2);
                        }
                    }
                    if self.accept_waits().contains_key(k) {
                        assert(v@ == before.push(k));
                        assert(v@.contains(k2) <==> (before.contains(k2) || k2 == k)) by {
                            if v@.contains(k2) && k2 != k {
                                let j = choose|j: int| 0 <= j < v@.len() && #[trigger] v@[j] == k2;
                                assert(before[j] == k2);
                            }
                            if before.contains(k2) {
                                let j = choose|j: int| 0 <= j < before.len() && #[trigger] before[j] == k2;
                                assert(v@[j] == k2);
                            }
                            if k2 == k {
                                assert(v@[before.len() as int] == k2);
                            }
                        }
                    } else {
                        assert(v@ == before);
                    }
                }
            }
            i = i + 1;
        }
        assert(keys@.take(keys@.len() as int) =~= keys@);
        v
    }

    /// Every connection whose receive waits on an entry that is gone gets a
    /// message with the single byte 0, once, and its receive is cleared.
    pub fn expire_waiting_recvs(&mut self, messages: &mut Vec<NatMessage>)
        requires
            old(self).wf(),
        ensures
            final(self).wf(),
            final(self).recv_waits() == old(self).recv_waits().remove_keys(
                Set::new(|k: PortKey| recv_expired(old(self).connection_map(), old(self).entries(), old(self).recv_waits(), k))),
            final(self).entries() == old(self).entries(),
            final(self).ports() == old(self).ports(),
            final(self).listener_map() == old(self).listener_map(),
            final(self).connection_map() == old(self).connection_map(),
            final(self).accept_waits() == old(self).accept_waits(),
            final(self).next() == old(self).next(),
            final(messages)@.len() >= old(messages)@.len(),
            final(messages)@.take(old(messages)@.len() as int) == old(messages)@,
            forall|i: int| old(messages)@.len() <= i < final(messages)@.len() ==> {
                let m = #[trigger] final(messages)@[i];
                &&& m.2@ == seq![0u8]
                &&& !m.3
                &&& recv_expired(old(self).connection_map(), old(self).entries(), old(self).recv_waits(), key(m.0, m.1))
            },
            forall|k: PortKey| #[trigger] recv_expired(old(self).connection_map(), old(self).entries(), old(self).recv_waits(), k)
                ==> exists|i: int| old(messages)@.len() <= i < final(messages)@.len()
                    && key((#[trigger] final(messages)@[i]).0, final(messages)@[i].1) == k,
            forall|i: int, j: int| old(messages)@.len() <= i < j < final(messages)@.len()
                ==> key((#[trigger] final(messages)@[i]).0, final(messages)@[i].1)
                    != key((#[trigger] final(messages)@[j]).0, final(messages)@[j].1),
    {
        let ghost conns = old(self).connection_map();
        let ghost ents = old(self).entries();
        let ghost waits = old(self).recv_waits();
        let ghost n0 = old(messages)@.len();
        let ks = self.connections.keys();
        let mut i: usize = 0;
        while i < ks.len()
            invariant
                self.wf(),
                i <= ks@.len(),
                forall|a: int, b: int| 0 <= a < b < ks@.len() ==> ks@[a] != ks@[b],
                forall|k: PortKey| #[trigger] conns.contains_key(k) <==> ks@.contains(k),
                conns == old(self).connection_map(),
                ents == old(self).entries(),
                waits == old(self).recv_waits(),
                n0 == old(messages)@.len(),
                self.connection_map() == conns,
                self.entries() == ents,
                self.ports() == old(self).ports(),
                self.listener_map() == old(self).listener_map(),
                self.accept_waits() == old(self).accept_waits(),
                self.next() == old(self).next(),
                self.recv_waits() == waits.remove_keys(
                    Set::new(|k: PortKey| recv_expired(conns, ents, waits, k) && ks@.take(i as int).contains(k))),
                messages@.len() >= n0,
                messages@.take(n0 as int) == old(messages)@,
                forall|j: int| n0 <= j < messages@.len() ==> {
                    let m = #[trigger] messages@[j];
                    &&& m.2@ == seq![0u8]
                    &&& !m.3
                    &&& recv_expired(conns, ents, waits, key(m.0, m.1))
                    &&& ks@.take(i as int).contains(key(m.0, m.1))
                },
                forall|k: PortKey| #[trigger] recv_expired(conns, ents, waits, k) && ks@.take(i as int).contains(k)
                    ==> exists|j: int| n0 <= j < messages@.len() && key((#[trigger] messages@[j]).0, messages@[j].1) == k,
                forall|a: int, b: int| n0 <= a < b < messages@.len()
                    ==> key((#[trigger] messages@[a]).0, messages@[a].1) != key((#[trigger] messages@[b]).0, messages@[b].1),
            decreases ks@.len() - i,
        {
            let k = ks[i];
            let ghost before = messages@;
            let ghost rw = self.recv_waits();
            assert(!ks@.take(i as int).contains(k)) by {
                if ks@.take(i as int).contains(k) {
                    let j = choose|j: int| 0 <= j < i && #[trigger] ks@.take(i as int)[j] == k;
                    assert(ks@[j] == ks@[i as int]);
                }
            }
            assert(ks@.contains(k)) by { assert(ks@[i as int] == k); }
            let cp = match self.connections.get(&k) {
                Some(cp) => *cp,
                None => {
                    assert(false);
                    0
                },
            };
            let expired = self.is_waiting_for_recv(k.pid, k.port) && !self.port_mappings.contains_key(&cp);
            assert(rw.contains_key(k) == waits.contains_key(k));
            assert(rw.contains_key(k) ==> rw[k] == waits[k]);
            assert(expired == recv_expired(conns, ents, waits, k));
            if expired {
                let mut zero: Vec<u8> = Vec::new();
                zero.push(0u8);
                messages.push((k.pid, k.port, zero, false));
                let _ = self.waiting_recvs.remove(&k);
            }
            proof {
                let t0 = ks@.take(i as int);
                let t1 = ks@.take(i + 1);
                assert(t1 =~= t0.push(k));
                assert forall|k2: PortKey| t1.contains(k2) <==> (t0.contains(k2) || k2 == k) by {
                    if t1.contains(k2) && k2 != k {
                        let j = choose|j: int| 0 <= j < i + 1 && #[trigger] t1[j] == k2;
                        assert(t0[j] == k2);
                    }
                    if t0.contains(k2) {
                        let j = choose|j: int| 0 <= j < i && #[trigger] t0[j] == k2;
                        assert(t1[j] == k2);
                    }
                    if k2 == k {
                        assert(t1[i as int] == k2);
                    }
                }
                assert(self.recv_waits() =~= waits.remove_keys(
                    Set::new(|k2: PortKey| recv_expired(conns, ents, waits, k2) && t1.contains(k2))));
                assert(messages@.take(n0 as int) =~= old(messages)@);
                if expired {
                    assert(messages@ == before.push(messages@.last()));
                    assert(messages@.last().2@ =~= seq![0u8]);
                    assert forall|k2: PortKey| #[trigger] recv_expired(conns, ents, waits, k2) && t1.contains(k2)
                        implies exists|j: int| n0 <= j < messages@.len() && key((#[trigger] messages@[j]).0, messages@[j].1) == k2 by {
                        if k2 == k {
                            assert(key(messages@[before.len() as int].0, messages@[before.len() as int].1) == k2);
                        } else {
                            let j = choose|j: int| n0 <= j < before.len() && key((#[trigger] before[j]).0, before[j].1) == k2;
                            assert(messages@[j] == before[j]);
                        }
                    }
                    assert forall|a: int, b: int| n0 <= a < b < messages@.len()
                        implies key((#[trigger] messages@[a]).0, messages@[a].1) != key((#[trigger] messages@[b]).0, messages@[b].1) by {
                        if b == before.len() {
                            assert(messages@[a] == before[a]);
                            assert(t0.contains(key(before[a].0, before[a].1)));
                        } else {
                            assert(messages@[a] == before[a]);
                            assert(messages@[b] == before[b]);
                        }
                    }
                    assert forall|j: int| n0 <= j < messages@.len() implies {
                        let m = #[trigger] messages@[j];
                        &&& m.2@ == seq![0u8]
                        &&& !m.3
                        &&& recv_expired(conns, ents, waits, key(m.0, m.1))
                        &&& t1.contains(key(m.0, m.1))
                    } by {
                        if j < before.len() {
                            assert(messages@[j] == before[j]);
                        }
                    }
                } else {
                    assert forall|k2: PortKey| #[trigger] recv_expired(conns, ents, waits, k2) && t1.contains(k2)
                        implies exists|j: int| n0 <= j < messages@.len() && key((#[trigger] messages@[j]).0, messages@[j].1) == k2 by {
                        assert(k2 != k);
                    }
                }
            }
            i = i + 1;
        }
        proof {
            assert(ks@.take(ks@.len() as int) =~= ks@);
            assert(Set::new(|k: PortKey| recv_expired(conns, ents, waits, k) && ks@.take(i as int).contains(k))
                =~= Set::new(|k: PortKey| recv_expired(conns, ents, waits, k)));
        }
    }

    /// Consensus ports of all connection entries, each once.
    pub fn entry_ports(&self) -> (v: Vec<u16>)
        requires
            self.wf(),
        ensures
            forall|i: int, j: int| 0 <= i < j < v@.len() ==> v@[i] != v@[j],
            forall|cp: u16| #[trigger] self.entries().contains_key(cp) <==> v@.contains(cp),
    {
        self.port_mappings.keys()
    }

    /// The connection accepted on the waiting listener of `(pid, src_port)`
    /// becomes a connection of the process port the accept asked for, and a
    /// message announces it; the accept stays recorded as waiting. `None`,
    /// with nothing changed, where no accept waits.
    pub fn accept_for_waiting(&mut self, pid: u64, src_port: u16, messages: &mut Vec<NatMessage>) -> (r: Option<u16>)
        requires
            old(self).wf(),
            old(self).next() < u16::MAX,
        ensures
            final(self).wf(),
            final(self).accept_waits() == old(self).accept_waits(),
            final(self).listener_map() == old(self).listener_map(),
            final(self).recv_waits() == old(self).recv_waits(),
            !old(self).accept_waits().contains_key(key(pid, src_port)) ==> r is None
                && final(self).entries() == old(self).entries()
                && final(self).ports() == old(self).ports()
                && final(self).connection_map() == old(self).connection_map()
                && final(self).next() == old(self).next()
                && final(messages)@ == old(messages)@,
            old(self).accept_waits().contains_key(key(pid, src_port)) ==> ({
                let new_port = old(self).accept_waits()[key(pid, src_port)];
                let cp = old(self).next();
                &&& r == Some(cp)
                &&& final(self).next() == old(self).next() + 1
                &&& final(self).entries() == old(self).entries().insert(cp, final(self).entries()[cp])
                &&& new_entry(final(self).entries()[cp], pid, new_port, cp)
                &&& final(self).ports() == old(self).ports().insert(key(pid, new_port), cp)
                &&& final(self).connection_map() == old(self).connection_map().insert(key(pid, new_port), cp)
                &&& pushed_one(old(messages)@, final(messages)@, pid, src_port, seq![], true)
            }),
    {
        let new_port = match self.peek_waiting_port(pid, src_port) {
            Some(p) => p,
            None => return None,
        };
        let cp = self.allocate_port();
        self.add_connection(pid, new_port, cp);
        messages.push((pid, src_port, Vec::new(), true));
        assert(messages@.take(old(messages)@.len() as int) =~= old(messages)@);
        Some(cp)
    }

    /// Data read from the connection under `cp` joins its buffer; where its
    /// process port has a receive recorded, the whole buffer goes out in one
    /// message and the receive is cleared.
    pub fn deliver_data(&mut self, cp: u16, data: &[u8], messages: &mut Vec<NatMessage>)
        requires
            old(self).wf(),
            old(self).entries().contains_key(cp),
        ensures
            final(self).wf(),
            final(self).ports() == old(self).ports(),
            final(self).listener_map() == old(self).listener_map(),
            final(self).connection_map() == old(self).connection_map(),
            final(self).accept_waits() == old(self).accept_waits(),
            final(self).next() == old(self).next(),
            final(self).entries() == old(self).entries().insert(cp, final(self).entries()[cp]),
            ({
                let e = old(self).entries()[cp];
                let k = key(e.process_id, e.process_port);
                let buf = e.buffer@ + data@;
                if old(self).recv_waits().contains_key(k) {
                    &&& pushed_one(old(messages)@, final(messages)@, e.process_id, e.process_port, buf, false)
                    &&& same_entry_with_buffer(final(self).entries()[cp], e, seq![])
                    &&& final(self).recv_waits() == old(self).recv_waits().remove(k)
                } else {
                    &&& final(messages)@ == old(messages)@
                    &&& same_entry_with_buffer(final(self).entries()[cp], e, buf)
                    &&& final(self).recv_waits() == old(self).recv_waits()
                }
            }),
    {
        let ghost m = old(self).entries();
        let mut e = match self.port_mappings.remove(&cp) {
            Some(e) => e,
            None => {
                assert(false);
                return;
            },
        };
        let ghost e0 = e;
        e.buffer.extend_from_slice(data);
        assert(e.buffer@ =~= e0.buffer@ + data@);
        let k = PortKey { pid: e.process_id, port: e.process_port };
        if self.waiting_recvs.contains_key(&k) {
            let out = e.buffer.clone();
            assert(out@ =~= e0.buffer@ + data@);
            e.buffer.clear();
            messages.push((k.pid, k.port, out, false));
            assert(messages@.take(old(messages)@.len() as int) =~= old(messages)@);
            let _ = self.waiting_recvs.remove(&k);
        }
        let ghost e1 = e;
        self.port_mappings.insert(cp, e);
        assert(self.entries()[cp] == e1);
        assert(self.entries() =~= m.insert(cp, self.entries()[cp]));
    }

    /// Drops the entry under `cp` after its socket closed or failed: a
    /// connection also loses its connection mapping, and a message with the
    /// single byte 0 tells a waiting receive that it ended; a listener's port
    /// loses its mapping and its listener.
    pub fn remove_closed(&mut self, cp: u16, messages: &mut Vec<NatMessage>)
        requires
            old(self).wf(),
        ensures
            final(self).wf(),
            final(self).entries() == old(self).entries().remove(cp),
            final(self).accept_waits() == old(self).accept_waits(),
            final(self).next() == old(self).next(),
            !old(self).entries().contains_key(cp) ==> final(self).ports() == old(self).ports()
                && final(self).listener_map() == old(self).listener_map()
                && final(self).connection_map() == old(self).connection_map()
                && final(self).recv_waits() == old(self).recv_waits()
                && final(messages)@ == old(messages)@,
            old(self).entries().contains_key(cp) ==> ({
                let e = old(self).entries()[cp];
                let k = key(e.process_id, e.process_port);
                let waiting = old(self).recv_waits().contains_key(k) && old(self).recv_waits()[k];
                if old(self).connection_map().contains_key(k) {
                    &&& final(self).connection_map() == old(self).connection_map().remove(k)
                    &&& final(self).ports() == old(self).ports()
                    &&& final(self).listener_map() == old(self).listener_map()
                    &&& if waiting {
                        &&& pushed_one(old(messages)@, final(messages)@, e.process_id, e.process_port, seq![0u8], false)
                        &&& final(self).recv_waits() == old(self).recv_waits().remove(k)
                    } else {
                        &&& final(messages)@ == old(messages)@
                        &&& final(self).recv_waits() == old(self).recv_waits()
                    }
                } else {
                    &&& final(self).connection_map() == old(self).connection_map()
                    &&& final(messages)@ == old(messages)@
                    &&& final(self).recv_waits() == old(self).recv_waits()
                    &&& if old(self).listener_map().contains_key(k) {
                        &&& final(self).ports() == old(self).ports().remove(k)
                        &&& final(self).listener_map() == old(self).listener_map().remove(k)
                    } else {
                        &&& final(self).ports() == old(self).ports()
                        &&& final(self).listener_map() == old(self).listener_map()
                    }
                }
            }),
    {
        let e = match self.port_mappings.remove(&cp) {
            Some(e) => e,
            None => return,
        };
        let k = PortKey { pid: e.process_id, port: e.process_port };
        let was_connection = self.connections.contains_key(&k);
        let was_waiting = self.is_waiting_for_recv(e.process_id, e.process_port);
        if was_connection {
            let _ = self.connections.remove(&k);
        } else if self.listeners.contains_key(&k) {
            let _ = self.process_ports.remove(&k);
            let _ = self.listeners.remove(&k);
        }
        if was_connection && was_waiting {
            let mut zero: Vec<u8> = Vec::new();
            zero.push(0u8);
            messages.push((e.process_id, e.process_port, zero, false));
            assert(messages@.take(old(messages)@.len() as int) =~= old(messages)@);
            assert(messages@.last().2@ =~= seq![0u8]);
            let _ = self.waiting_recvs.remove(&k);
        }
    }

    /// Whether the request `op` of `pid` is left waiting: an accept or a
    /// receive that is recorded as waiting.
    pub fn is_waiting_after(&self, pid: u64, op: &NetworkOperation) -> (b: bool)
        requires
            self.wf(),
        ensures
            b == match *op {
                NetworkOperation::Accept { src_port, .. } => self.accept_waits().contains_key(key(pid, src_port)),
                NetworkOperation::Recv { src_port } => self.recv_waits().contains_key(key(pid, src_port))
                    && self.recv_waits()[key(pid, src_port)],
                _ => false,
            },
    {
        match op {
            NetworkOperation::Accept { src_port, .. } => self.is_waiting_for_accept(pid, *src_port),
            NetworkOperation::Recv { src_port } => self.is_waiting_for_recv(pid, *src_port),
            _ => false,
        }
    }

    /// Turns one connection accepted ahead of time on the listener of
    /// `(pid, src_port)` into a connection of that port under the next
    /// consensus port, which it gives; `None` when there is none pending.
    pub fn process_pending_accept(&mut self, pid: u64, src_port: u16) -> (r: Option<u16>)
        requires
            old(self).wf(),
            old(self).next() < u16::MAX,
        ensures
            final(self).wf(),
            ({
                let k = key(pid, src_port);
                let pending = old(self).listener_map().contains_key(k) && old(self).listener_map()[k].pending_accepts > 0;
                if pending {
                    &&& r == Some(old(self).next())
                    &&& final(self).next() == old(self).next() + 1
                    &&& final(self).listener_map() == old(self).listener_map().insert(k, NatListener {
                        pending_accepts: (old(self).listener_map()[k].pending_accepts - 1) as usize,
                        ..old(self).listener_map()[k]
                    })
                    &&& final(self).entries() == old(self).entries().insert(old(self).next(), final(self).entries()[old(self).next()])
                    &&& new_entry(final(self).entries()[old(self).next()], pid, src_port, old(self).next())
                    &&& final(self).connection_map() == old(self).connection_map().insert(k, old(self).next())
                    &&& final(self).ports() == old(self).ports()
                } else {
                    &&& r is None
                    &&& final(self).next() == old(self).next()
                    &&& final(self).listener_map() == old(self).listener_map()
                    &&& final(self).entries() == old(self).entries()
                    &&& final(self).connection_map() == old(self).connection_map()
                    &&& final(self).ports() == old(self).ports()
                }
            }),
            final(self).accept_waits() == old(self).accept_waits(),
            final(self).recv_waits() == old(self).recv_waits(),
    {
        if !self.has_pending_accept(pid, src_port) {
            return None;
        }
        self.clear_pending_accept(pid, src_port);
        let cp = self.allocate_port();
        let k = PortKey { pid, port: src_port };
        self.port_mappings.insert(cp, NatEntry { process_id: pid, process_port: src_port, consensus_port: cp, buffer: Vec::new() });
        self.connections.insert(k, cp);
        Some(cp)
    }

    /// Takes one connection accepted ahead of time off the listener of
    /// `(pid, src_port)`, where it has any.
    pub fn clear_pending_accept(&mut self, pid: u64, src_port: u16)
        requires
            old(self).wf(),
        ensures
            final(self).wf(),
            final(self).listener_map() == (if old(self).listener_map().contains_key(key(pid, src_port))
                && old(self).listener_map()[key(pid, src_port)].pending_accepts > 0 {
                old(self).listener_map().insert(key(pid, src_port), NatListener {
                    pending_accepts: (old(self).listener_map()[key(pid, src_port)].pending_accepts - 1) as usize,
                    ..old(self).listener_map()[key(pid, src_port)]
                })
            } else {
                old(self).listener_map()
            }),
            final(self).entries() == old(self).entries(),
            final(self).ports() == old(self).ports(),
            final(self).connection_map() == old(self).connection_map(),
            final(self).accept_waits() == old(self).accept_waits(),
            final(self).recv_waits() == old(self).recv_waits(),
            final(self).next() == old(self).next(),
    {
        let k = PortKey { pid, port: src_port };
        let updated = match self.listeners.get(&k) {
            Some(l) => {
                if l.pending_accepts > 0 {
                    Some(NatListener {
                        process_id: l.process_id,
                        process_port: l.process_port,
                        consensus_port: l.consensus_port,
                        pending_accepts: l.pending_accepts - 1,
                    })
                } else {
                    None
                }
            },
            None => None,
        };
        match updated {
            Some(l) => self.listeners.insert(k, l),
            None => {},
        }
    }

    /// Every mapped process port with its consensus port and what it is:
    /// `"listener"`, else `"connection"`, else `"unknown"`; each once.
    pub fn get_port_mappings(&self) -> (v: Vec<(u64, u16, u16, &'static str)>)
        requires
            self.wf(),
        ensures
            v@.len() == self.ports().len(),
            forall|i: int| 0 <= i < v@.len() ==> {
                let (pid, port, cp, kind) = #[trigger] v@[i];
                &&& self.ports().contains_key(key(pid, port))
                &&& self.ports()[key(pid, port)] == cp
                &&& kind == mapping_kind(self.listener_map(), self.connection_map(), key(pid, port))
            },
            forall|k: PortKey| #[trigger] self.ports().contains_key(k)
                ==> exists|i: int| 0 <= i < v@.len() && key((#[trigger] v@[i]).0, v@[i].1) == k,
            forall|i: int, j: int| 0 <= i < j < v@.len()
                ==> key((#[trigger] v@[i]).0, v@[i].1) != key((#[trigger] v@[j]).0, v@[j].1),
    {
        let ks = self.process_ports.keys();
        proof {
            self.process_ports.lemma_keys_len(ks@);
        }
        let mut v: Vec<(u64, u16, u16, &'static str)> = Vec::new();
        let mut i: usize = 0;
        while i < ks.len()
            invariant
                self.wf(),
                i <= ks@.len(),
                ks@.len() == self.ports().len(),
                forall|a: int, b: int| 0 <= a < b < ks@.len() ==> ks@[a] != ks@[b],
                forall|k: PortKey| #[trigger] self.ports().contains_key(k) <==> ks@.contains(k),
                v@.len() == i,
                forall|j: int| 0 <= j < i ==> {
                    let (pid, port, cp, kind) = #[trigger] v@[j];
                    &&& key(pid, port) == ks@[j]
                    &&& self.ports().contains_key(key(pid, port))
                    &&& self.ports()[key(pid, port)] == cp
                    &&& kind == mapping_kind(self.listener_map(), self.connection_map(), key(pid, port))
                },
            decreases ks@.len() - i,
        {
            let k = ks[i];
            assert(ks@.contains(k)) by { assert(ks@[i as int] == k); }
            let cp = match self.process_ports.get(&k) {
                Some(cp) => *cp,
                None => {
                    assert(false);
                    0
                },
            };
            let kind: &'static str = if self.listeners.contains_key(&k) {
                "listener"
            } else if self.connections.contains_key(&k) {
                "connection"
            } else {
                "unknown"
            };
            v.push((k.pid, k.port, cp, kind));
            i = i + 1;
        }
        proof {
            assert forall|k: PortKey| #[trigger] self.ports().contains_key(k)
                implies exists|i: int| 0 <= i < v@.len() && key((#[trigger] v@[i]).0, v@[i].1) == k by {
                let j = choose|j: int| 0 <= j < ks@.len() && ks@[j] == k;
                assert(key(v@[j].0, v@[j].1) == k);
            }
            assert forall|a: int, b: int| 0 <= a < b < v@.len()
                implies key((#[trigger] v@[a]).0, v@[a].1) != key((#[trigger] v@[b]).0, v@[b].1) by {
                assert(key(v@[a].0, v@[a].1) == ks@[a]);
                assert(key(v@[b].0, v@[b].1) == ks@[b]);
            }
        }
        v
    }
}

/// `e` is a fresh entry for `(pid, port)` under `cp` with nothing buffered.
pub open spec fn new_entry(e: NatEntry, pid: u64, port: u16, cp: u16) -> bool {
    e.process_id == pid && e.process_port == port && e.consensus_port == cp && e.buffer@.len() == 0
}

/// `e` is `old` with its buffer holding `buf`.
pub open spec fn same_entry_with_buffer(e: NatEntry, old: NatEntry, buf: Seq<u8>) -> bool {
    e.process_id == old.process_id && e.process_port == old.process_port
        && e.consensus_port == old.consensus_port && e.buffer@ == buf
}

/// `new` is `old` with one message `(pid, port, data, conn)` added at the end.
pub open spec fn pushed_one(old: Seq<NatMessage>, new: Seq<NatMessage>, pid: u64, port: u16, data: Seq<u8>, conn: bool) -> bool {
    &&& new.len() == old.len() + 1
    &&& new.take(old.len() as int) == old
    &&& new.last().0 == pid
    &&& new.last().1 == port
    &&& new.last().2@ == data
    &&& new.last().3 == conn
}

/// `k` is a connection whose process waits for a receive while its entry is gone.
pub open spec fn recv_expired(conns: Map<PortKey, u16>, entries: Map<u16, NatEntry>, waits: Map<PortKey, bool>, k: PortKey) -> bool {
    &&& conns.contains_key(k)
    &&& waits.contains_key(k)
    &&& waits[k]
    &&& !entries.contains_key(conns[k])
}

/// What a mapped port is, as the status page names it.
pub open spec fn mapping_kind(listeners: Map<PortKey, NatListener>, conns: Map<PortKey, u16>, k: PortKey) -> &'static str {
    if listeners.contains_key(k) {
        "listener"
    } else if conns.contains_key(k) {
        "connection"
    } else {
        "unknown"
    }
}

pub open spec fn spec_send_route(conns: Map<PortKey, u16>, ports: Map<PortKey, u16>, entries: Map<u16, NatEntry>, k: PortKey) -> Option<u16> {
    if conns.contains_key(k) {
        if entries.contains_key(conns[k]) { Some(conns[k]) } else { None }
    } else if ports.contains_key(k) {
        if entries.contains_key(ports[k]) { Some(ports[k]) } else { None }
    } else {
        None
    }
}

/// The status byte answering a network request: 0 where it failed or was
/// refused, 2 where it now waits, 1 where it is done.
pub open spec fn spec_network_status(handled: Option<bool>, waiting: bool) -> u8 {
    match handled {
        Some(true) => if waiting { 2 } else { 1 },
        _ => 0,
    }
}

pub fn network_status(handled: Option<bool>, waiting: bool) -> (st: u8)
    ensures
        st == spec_network_status(handled, waiting),
{
    match handled {
        Some(true) => if waiting { 2 } else { 1 },
        _ => 0,
    }
}

/// `[ status ][ source port: u16 LE ][ new port: u16 LE ]`.
pub open spec fn status_payload(status: u8, src_port: u16, new_port: u16) -> Seq<u8> {
    seq![status] + spec_u16_to_le_bytes(src_port) + spec_u16_to_le_bytes(new_port)
}

pub fn encode_status(status: u8, src_port: u16, new_port: u16) -> (v: Vec<u8>)
    ensures
        v@ == status_payload(status, src_port, new_port),
{
    let mut v: Vec<u8> = Vec::new();
    v.push(status);
    let mut a = u16_to_le_bytes(src_port);
    v.append(&mut a);
    let mut b = u16_to_le_bytes(new_port);
    v.append(&mut b);
    assert(v@ =~= status_payload(status, src_port, new_port));
    v
}

/// The new port an answer reports: the one an accept asked for, else 0.
pub open spec fn answered_new_port(op: NetworkOperation) -> u16 {
    match op {
        NetworkOperation::Accept { new_port, .. } => new_port,
        _ => 0,
    }
}

/// The network input that answers `op` of `pid` with `status`: port 0,
/// carrying the status, the request's source port and, for an accept, the
/// new port.
pub fn network_response(pid: u64, op: &NetworkOperation, status: u8) -> (c: Command)
    ensures
        c matches Command::NetworkIn(p, port, data) && p == pid && port == 0
            && data@ == status_payload(status, op.spec_src_port(), answered_new_port(*op)),
{
    let new_port = match op {
        NetworkOperation::Accept { new_port, .. } => *new_port,
        _ => 0,
    };
    Command::NetworkIn(pid, 0, encode_status(status, op.src_port(), new_port))
}

pub open spec fn message_view(m: NatMessage) -> (u64, u16, Seq<u8>, bool) {
    (m.0, m.1, m.2@, m.3)
}

/// The records the consensus node queues for messages from the NAT table:
/// a new connection on port `p` is announced as success for `p` with new port
/// `p + 1`; data for a port is passed on, followed by a success for that port;
/// an empty non-connection message adds nothing, and data too long for a
/// record is dropped while its success still follows.
pub open spec fn incoming_bytes(ms: Seq<(u64, u16, Seq<u8>, bool)>) -> Seq<u8>
    decreases ms.len(),
{
    if ms.len() == 0 {
        seq![]
    } else {
        message_bytes(ms[0]) + incoming_bytes(ms.drop_first())
    }
}

/// The records for one message from the NAT table.
pub open spec fn message_bytes(m: (u64, u16, Seq<u8>, bool)) -> Seq<u8> {
    let (pid, port, data, conn) = m;
    if conn {
        record_bytes(5, pid, spec_u16_to_le_bytes(0) + status_payload(1, port, (port + 1) as u16))
    } else if data.len() > 0 {
        (if data.len() + 2 <= 65535 {
            record_bytes(5, pid, spec_u16_to_le_bytes(port) + data)
        } else {
            seq![]
        }) + record_bytes(5, pid, spec_u16_to_le_bytes(0) + status_payload(1, port, 0))
    } else {
        seq![]
    }
}

pub fn incoming_records(messages: &Vec<NatMessage>) -> (v: Vec<u8>)
    requires
        forall|i: int| 0 <= i < messages@.len() && (#[trigger] messages@[i]).3 ==> messages@[i].1 < u16::MAX,
    ensures
        v@ == incoming_bytes(messages@.map_values(|m: NatMessage| message_view(m))),
{
    let ghost all = messages@.map_values(|m: NatMessage| message_view(m));
    let mut parts: Vec<Vec<u8>> = Vec::new();
    let mut j: usize = 0;
    while j < messages.len()
        invariant
            j <= messages@.len(),
            parts@.len() == j,
            all == messages@.map_values(|m: NatMessage| message_view(m)),
            forall|i: int| 0 <= i < messages@.len() && (#[trigger] messages@[i]).3 ==> messages@[i].1 < u16::MAX,
            forall|k: int| 0 <= k < j ==> (#[trigger] parts@[k])@ == message_bytes(all[k]),
        decreases messages@.len() - j,
    {
        let (pid, port, data, conn) = (messages[j].0, messages[j].1, &messages[j].2, messages[j].3);
        let mut out: Vec<u8> = Vec::new();
        if conn {
            let r = write_record(&Command::NetworkIn(pid, 0, encode_status(1, port, port + 1)));
            if let Ok(mut r) = r {
                out.append(&mut r);
            }
        } else if data.len() > 0 {
            let r = write_record(&Command::NetworkIn(pid, port, data.clone()));
            if let Ok(mut r) = r {
                out.append(&mut r);
            }
            let r2 = write_record(&Command::NetworkIn(pid, 0, encode_status(1, port, 0)));
            if let Ok(mut r2) = r2 {
                out.append(&mut r2);
            }
        }
        proof {
            assert(all[j as int] == message_view(messages@[j as int]));
            lemma_auto_spec_u16_to_from_le_bytes();
            assert(out@ =~= message_bytes(all[j as int]));
        }
        parts.push(out);
        j = j + 1;
    }
    let mut v: Vec<u8> = Vec::new();
    let mut i = messages.len();
    assert(all.skip(i as int) =~= Seq::<(u64, u16, Seq<u8>, bool)>::empty());
    while i > 0
        invariant
            i <= messages@.len(),
            parts@.len() == messages@.len(),
            all.len() == messages@.len(),
            forall|k: int| 0 <= k < messages@.len() ==> (#[trigger] parts@[k])@ == message_bytes(all[k]),
            v@ == incoming_bytes(all.skip(i as int)),
        decreases i,
    {
        i = i - 1;
        let mut p = parts[i].clone();
        p.append(&mut v);
        v = p;
        proof {
            let t = all.skip(i as int);
            assert(t.drop_first() =~= all.skip(i + 1));
            assert(t[0] == all[i as int]);
        }
    }
    assert(all.skip(0) =~= all);
    v
}

} // verus!
