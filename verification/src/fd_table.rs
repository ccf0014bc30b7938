use vstd::prelude::*;

verus! {

/// Number of slots in a process's file-descriptor table.
pub const MAX_FDS: usize = 8;

/// One open descriptor: an in-memory file (or directory listing) or a socket.
pub enum FDEntry {
    File {
        /// Data waiting to be read.
        buffer: Vec<u8>,
        /// How far the process has read from `buffer`.
        read_ptr: usize,
        is_directory: bool,
        is_preopen: bool,
        /// The host filesystem path behind the descriptor, if any.
        host_path: Option<String>,
    },
    Socket {
        local_port: u16,
        connected: bool,
        is_listener: bool,
        /// Data received from the network and not yet read.
        buffer: Vec<u8>,
    },
}

impl FDEntry {
    /// A plain, non-preopened file with an empty buffer.
    pub fn new_file(host_path: Option<String>) -> (e: FDEntry)
        ensures
            e matches FDEntry::File { buffer, read_ptr, is_directory, is_preopen, host_path: hp }
                && buffer@.len() == 0 && read_ptr == 0 && !is_directory && !is_preopen
                && hp == host_path,
    {
        FDEntry::File {
            buffer: Vec::new(),
            read_ptr: 0,
            is_directory: false,
            is_preopen: false,
            host_path,
        }
    }

    /// A preopened directory rooted at `host_path`.
    pub fn new_directory(host_path: String) -> (e: FDEntry)
        ensures
            e matches FDEntry::File { buffer, read_ptr, is_directory, is_preopen, host_path: hp }
                && buffer@.len() == 0 && read_ptr == 0 && is_directory && is_preopen
                && hp == Some(host_path),
    {
        FDEntry::File {
            buffer: Vec::new(),
            read_ptr: 0,
            is_directory: true,
            is_preopen: true,
            host_path: Some(host_path),
        }
    }
}

/// `fd` names a slot of the table.
pub open spec fn fd_in_range(fd: i32) -> bool {
    0 <= fd < MAX_FDS
}

/// A new table: stdin, stdout and stderr as empty files, slot 3 the
/// preopened root directory `root`, the other slots free.
pub open spec fn fresh_table(t: FDTable, root: String) -> bool {
    &&& forall|i: int| 0 <= i < 3 ==> (#[trigger] t.slot(i) matches Some(FDEntry::File {
        buffer, read_ptr, is_directory, is_preopen, host_path }) && buffer@.len() == 0
        && read_ptr == 0 && !is_directory && !is_preopen && host_path is None)
    &&& t.slot(3) matches Some(FDEntry::File { buffer, read_ptr, is_directory, is_preopen, host_path })
        && buffer@.len() == 0 && read_ptr == 0 && is_directory && is_preopen
        && host_path == Some(root)
    &&& forall|i: int| 4 <= i < MAX_FDS ==> #[trigger] t.slot(i) is None
}

/// The descriptor table of one process.
pub struct FDTable {
    pub entries: [Option<FDEntry>; MAX_FDS],
}

impl FDTable {
    pub open spec fn slot(&self, i: int) -> Option<FDEntry> {
        self.entries@[i]
    }

    /// Slot `i` is a file with unread data.
    pub open spec fn file_has_unread(&self, i: int) -> bool {
        match self.slot(i) {
            Some(FDEntry::File { buffer, read_ptr, .. }) => read_ptr < buffer@.len(),
            _ => false,
        }
    }

    /// A table with stdin, stdout and stderr as empty files and slot 3 as the
    /// preopened root directory of the process; the other slots are free.
    pub fn new(process_root: String) -> (t: FDTable)
        ensures
            fresh_table(t, process_root),
    {
        FDTable {
            entries: [
                Some(FDEntry::new_file(None)),
                Some(FDEntry::new_file(None)),
                Some(FDEntry::new_file(None)),
                Some(FDEntry::new_directory(process_root)),
                None,
                None,
                None,
                None,
            ],
        }
    }

    /// Whether `fd` is a file whose buffer holds unread data.
    pub fn has_pending_input(&self, fd: i32) -> (b: bool)
        ensures
            b == (fd_in_range(fd) && self.file_has_unread(fd as int)),
    {
        if fd < 0 || fd as usize >= MAX_FDS {
            return false;
        }
        match &self.entries[fd as usize] {
            Some(FDEntry::File { buffer, read_ptr, .. }) => *read_ptr < buffer.len(),
            _ => false,
        }
    }

    /// The entry at `fd`, borrowed mutably; `None` for a free slot or an
    /// `fd` outside the table.
    pub fn get_fd_entry_mut(&mut self, fd: i32) -> (r: Option<&mut FDEntry>)
        ensures
            r is Some <==> (fd_in_range(fd) && old(self).slot(fd as int) is Some),
            r is None ==> final(self).entries@ == old(self).entries@,
            r matches Some(e) ==> *e == old(self).slot(fd as int)->0
                && final(self).entries@ == old(self).entries@.update(fd as int, Some(*final(e))),
    {
        if fd < 0 || fd as usize >= MAX_FDS {
            return None;
        }
        self.entries[fd as usize].as_mut()
    }

    /// The lowest free slot, or -1 when every slot is taken.
    pub open spec fn spec_lowest_free(&self) -> i32 {
        if exists|i: int| 0 <= i < MAX_FDS && #[trigger] self.slot(i) is None {
            (choose|i: int| 0 <= i < MAX_FDS && #[trigger] self.slot(i) is None
                && forall|j: int| 0 <= j < i ==> #[trigger] self.slot(j) is Some) as i32
        } else {
            -1i32
        }
    }

    /// The lowest free slot, or -1 when every slot is taken.
    pub fn allocate_fd(&self) -> (fd: i32)
        ensures
            fd == self.spec_lowest_free(),
            fd == -1 <==> (forall|i: int| 0 <= i < MAX_FDS ==> #[trigger] self.slot(i) is Some),
            fd != -1 ==> fd_in_range(fd) && self.slot(fd as int) is None
                && (forall|i: int| 0 <= i < fd ==> #[trigger] self.slot(i) is Some),
    {
        let mut i: usize = 0;
        while i < MAX_FDS
            invariant
                i <= MAX_FDS,
                forall|j: int| 0 <= j < i ==> #[trigger] self.slot(j) is Some,
            decreases MAX_FDS - i,
        {
            if self.entries[i].is_none() {
                proof {
                    assert(self.slot(i as int) is None);
                    let k = choose|k: int| 0 <= k < MAX_FDS && #[trigger] self.slot(k) is None
                        && forall|j: int| 0 <= j < k ==> #[trigger] self.slot(j) is Some;
                    if k < i {
                    } else if k > i {
                        assert(self.slot(i as int) is Some);
                    }
                }
                return i as i32;
            }
            i = i + 1;
        }
        -1
    }

    /// Frees slot `fd`; an `fd` outside the table changes nothing.
    pub fn deallocate_fd(&mut self, fd: i32)
        ensures
            fd_in_range(fd) ==> final(self).entries@ == old(self).entries@.update(fd as int, None),
            !fd_in_range(fd) ==> final(self).entries@ == old(self).entries@,
    {
        if fd >= 0 && (fd as usize) < MAX_FDS {
            self.entries[fd as usize] = None;
        }
    }
}


/// `e` is a socket on `port`; where `listener` is given, one that is (or is
/// not) a listener.
pub open spec fn socket_on(e: Option<FDEntry>, port: u16, listener: Option<bool>) -> bool {
    match e {
        Some(FDEntry::Socket { local_port, is_listener, .. }) =>
            local_port == port && (listener matches Some(l) ==> is_listener == l),
        _ => false,
    }
}

/// `e` with its connected flag set to `c` where it is a socket.
pub open spec fn with_connected(e: Option<FDEntry>, c: bool) -> Option<FDEntry> {
    match e {
        Some(FDEntry::Socket { local_port, connected, is_listener, buffer }) =>
            Some(FDEntry::Socket { local_port, connected: c, is_listener, buffer }),
        _ => e,
    }
}

/// `new` is the socket `old` with `more` added to its buffer.
pub open spec fn appended_socket(old: Option<FDEntry>, new: Option<FDEntry>, more: Seq<u8>) -> bool {
    match (old, new) {
        (Some(FDEntry::Socket { local_port: p0, connected: c0, is_listener: l0, buffer: b0 }),
         Some(FDEntry::Socket { local_port: p1, connected: c1, is_listener: l1, buffer: b1 })) =>
            p1 == p0 && c1 == c0 && l1 == l0 && b1@ == b0@ + more,
        _ => false,
    }
}

/// The lowest slot holding a socket on `port` (see `socket_on`), if any.
pub open spec fn first_socket_on(t: FDTable, port: u16, listener: Option<bool>) -> Option<int> {
    if exists|i: int| 0 <= i < MAX_FDS && socket_on(#[trigger] t.slot(i), port, listener) {
        Some(choose|i: int| 0 <= i < MAX_FDS && socket_on(#[trigger] t.slot(i), port, listener)
            && forall|j: int| 0 <= j < i ==> !socket_on(#[trigger] t.slot(j), port, listener))
    } else {
        None
    }
}

impl FDTable {
    /// The lowest slot holding a socket on `port` (see `socket_on`).
    pub fn find_socket(&self, port: u16, listener: Option<bool>) -> (r: Option<usize>)
        ensures
            match first_socket_on(*self, port, listener) {
                Some(i) => r == Some(i as usize),
                None => r is None,
            },
    {
        let mut i: usize = 0;
        while i < MAX_FDS
            invariant
                i <= MAX_FDS,
                forall|j: int| 0 <= j < i ==> !socket_on(#[trigger] self.slot(j), port, listener),
            decreases MAX_FDS - i,
        {
            let hit = match &self.entries[i] {
                Some(FDEntry::Socket { local_port, is_listener, .. }) => *local_port == port && match listener {
                    Some(l) => *is_listener == l,
                    None => true,
                },
                _ => false,
            };
            if hit {
                assert(socket_on(self.slot(i as int), port, listener));
                proof {
                    let k = choose|k: int| 0 <= k < MAX_FDS && socket_on(#[trigger] self.slot(k), port, listener)
                        && forall|j: int| 0 <= j < k ==> !socket_on(#[trigger] self.slot(j), port, listener);
                    if k < i {
                    } else if k > i {
                        assert(!socket_on(self.slot(i as int), port, listener));
                    }
                }
                return Some(i);
            }
            i = i + 1;
        }
        None
    }

    /// Sets the connected flag of the socket in slot `i`; another slot or
    /// kind of entry is left as it is.
    pub fn set_connected(&mut self, i: usize, c: bool)
        requires
            i < MAX_FDS,
        ensures
            final(self).entries@ == old(self).entries@.update(i as int, with_connected(old(self).slot(i as int), c)),
    {
        let mut entry: Option<FDEntry> = None;
        std::mem::swap(&mut entry, &mut self.entries[i]);
        match entry {
            Some(FDEntry::Socket { local_port, connected, is_listener, buffer }) => {
                self.entries[i] = Some(FDEntry::Socket { local_port, connected: c, is_listener, buffer });
            },
            other => {
                self.entries[i] = other;
            },
        }
        assert(self.entries@ =~= old(self).entries@.update(i as int, with_connected(old(self).slot(i as int), c)));
    }

    /// Adds `data` to the buffer of the socket in slot `i`, which must hold
    /// a socket.
    pub fn append_to_socket(&mut self, i: usize, data: &[u8])
        requires
            i < MAX_FDS,
            old(self).slot(i as int) matches Some(FDEntry::Socket { .. }),
        ensures
            final(self).entries@ == old(self).entries@.update(i as int, final(self).slot(i as int)),
            appended_socket(old(self).slot(i as int), final(self).slot(i as int), data@),
    {
        let mut entry: Option<FDEntry> = None;
        std::mem::swap(&mut entry, &mut self.entries[i]);
        match entry {
            Some(FDEntry::Socket { local_port, connected, is_listener, buffer }) => {
                let mut buffer = buffer;
                let ghost b0 = buffer@;
                buffer.extend_from_slice(data);
                assert(buffer@ == b0 + data@);
                self.entries[i] = Some(FDEntry::Socket { local_port, connected, is_listener, buffer });
            },
            other => {
                self.entries[i] = other;
            },
        }
        assert(self.entries@ =~= old(self).entries@.update(i as int, self.slot(i as int)));
    }

    /// Marks every socket on `port` as not connected.
    pub fn disconnect_port(&mut self, port: u16)
        ensures
            forall|i: int| 0 <= i < MAX_FDS ==> #[trigger] final(self).slot(i) == (
                if socket_on(old(self).slot(i), port, None) {
                    with_connected(old(self).slot(i), false)
                } else {
                    old(self).slot(i)
                }),
    {
        let ghost orig = self.entries@;
        let mut i: usize = 0;
        while i < MAX_FDS
            invariant
                i <= MAX_FDS,
                orig == old(self).entries@,
                self.entries@.len() == MAX_FDS,
                forall|j: int| 0 <= j < i ==> #[trigger] self.entries@[j] == (
                    if socket_on(orig[j], port, None) {
                        with_connected(orig[j], false)
                    } else {
                        orig[j]
                    }),
                forall|j: int| i <= j < MAX_FDS ==> #[trigger] self.entries@[j] == orig[j],
            decreases MAX_FDS - i,
        {
            let ghost prev = self.entries@;
            assert(prev[i as int] == orig[i as int]);
            let on = match &self.entries[i] {
                Some(FDEntry::Socket { local_port, connected, .. }) => *local_port == port && *connected,
                _ => false,
            };
            if on {
                self.set_connected(i, false);
            }
            proof {
                if socket_on(orig[i as int], port, None) && !on {
                    assert(with_connected(orig[i as int], false) == orig[i as int]);
                }
                assert forall|j: int| 0 <= j < i + 1 implies #[trigger] self.entries@[j] == (
                    if socket_on(orig[j], port, None) {
                        with_connected(orig[j], false)
                    } else {
                        orig[j]
                    }) by {
                    if j < i {
                        assert(self.entries@[j] == prev[j]);
                    }
                }
                assert forall|j: int| i + 1 <= j < MAX_FDS implies #[trigger] self.entries@[j] == orig[j] by {
                    assert(self.entries@[j] == prev[j]);
                }
            }
            i = i + 1;
        }
    }
}

/// `e` with its listener flag set where it is a socket.
pub open spec fn as_listener(e: Option<FDEntry>) -> Option<FDEntry> {
    match e {
        Some(FDEntry::Socket { local_port, connected, is_listener, buffer }) =>
            Some(FDEntry::Socket { local_port, connected, is_listener: true, buffer }),
        _ => e,
    }
}

impl FDTable {
    /// Puts `e` in slot `i`.
    pub fn install(&mut self, i: usize, e: FDEntry)
        requires
            i < MAX_FDS,
        ensures
            final(self).entries@ == old(self).entries@.update(i as int, Some(e)),
    {
        self.entries[i] = Some(e);
    }

    /// Marks the socket in slot `i` as a listener; another slot or kind of
    /// entry is left as it is.
    pub fn set_listener(&mut self, i: usize)
        requires
            i < MAX_FDS,
        ensures
            final(self).entries@ == old(self).entries@.update(i as int, as_listener(old(self).slot(i as int))),
    {
        let mut entry: Option<FDEntry> = None;
        std::mem::swap(&mut entry, &mut self.entries[i]);
        match entry {
            Some(FDEntry::Socket { local_port, connected, is_listener, buffer }) => {
                self.entries[i] = Some(FDEntry::Socket { local_port, connected, is_listener: true, buffer });
            },
            other => {
                self.entries[i] = other;
            },
        }
        assert(self.entries@ =~= old(self).entries@.update(i as int, as_listener(old(self).slot(i as int))));
    }

    /// The port of the socket in slot `fd`; `None` for any other slot or `fd`.
    pub fn socket_port(&self, fd: i32) -> (r: Option<u16>)
        ensures
            r == (if fd_in_range(fd) { port_of(self.slot(fd as int)) } else { None }),
    {
        if fd < 0 || fd as usize >= MAX_FDS {
            return None;
        }
        match &self.entries[fd as usize] {
            Some(FDEntry::Socket { local_port, .. }) => Some(*local_port),
            _ => None,
        }
    }
}

/// The port of the socket in `e`, if it is one.
pub open spec fn port_of(e: Option<FDEntry>) -> Option<u16> {
    match e {
        Some(FDEntry::Socket { local_port, .. }) => Some(local_port),
        _ => None,
    }
}

/// A freed descriptor is handed out again before any higher one: once slot
/// `fd` is freed, the lowest free slot is at most `fd`.
pub proof fn lemma_freed_slot_reused(t: FDTable, u: FDTable, fd: i32)
    requires
        fd_in_range(fd),
        u.entries@ == t.entries@.update(fd as int, None),
    ensures
        0 <= u.spec_lowest_free() <= fd,
{
    assert(u.slot(fd as int) is None);
    lemma_first_free(u, fd as int);
    let k = choose|k: int| 0 <= k <= fd && #[trigger] u.slot(k) is None
        && forall|j: int| 0 <= j < k ==> #[trigger] u.slot(j) is Some;
    let c = choose|c: int| 0 <= c < MAX_FDS && #[trigger] u.slot(c) is None
        && forall|j: int| 0 <= j < c ==> #[trigger] u.slot(j) is Some;
    if c > k {
        assert(u.slot(k) is Some);
    }
}

proof fn lemma_first_free(u: FDTable, i: int)
    requires
        0 <= i < MAX_FDS,
        u.slot(i) is None,
    ensures
        exists|k: int| 0 <= k <= i && #[trigger] u.slot(k) is None
            && forall|j: int| 0 <= j < k ==> #[trigger] u.slot(j) is Some,
    decreases i,
{
    if forall|j: int| 0 <= j < i ==> #[trigger] u.slot(j) is Some {
        assert(u.slot(i) is None);
    } else {
        let j = choose|j: int| 0 <= j < i && !(#[trigger] u.slot(j) is Some);
        lemma_first_free(u, j);
    }
}

} // verus!
