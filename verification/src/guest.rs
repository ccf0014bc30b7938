use vstd::prelude::*;
use vstd::bytes::*;
use vstd::utf8::encode_utf8;
use vstd::slice::{slice_subrange, slice_to_vec};
use crate::fd_table::{FDEntry, FDTable, MAX_FDS, fd_in_range};
use crate::process::ProcessData;
use crate::scheduler::{BlockReason, ProcessState};

verus! {

/// `m` with `b` written from offset `at`.
pub open spec fn spliced(m: Seq<u8>, at: int, b: Seq<u8>) -> Seq<u8> {
    m.take(at) + b + m.skip(at + b.len())
}

/// `n` bytes from offset `at` lie inside a memory of `len` bytes.
pub open spec fn fits(len: int, at: int, n: int) -> bool {
    at + n <= len
}

/// Whether `n` bytes from `at` lie inside a memory of `len` bytes.
pub fn fits_in(len: usize, at: usize, n: usize) -> (b: bool)
    ensures
        b == fits(len as int, at as int, n as int),
{
    at <= len && n <= len - at
}

/// Writes `b` into guest memory from offset `at`.
pub fn write_bytes(mem: &mut [u8], at: usize, b: &[u8])
    requires
        fits(old(mem)@.len() as int, at as int, b@.len() as int),
    ensures
        final(mem)@ == spliced(old(mem)@, at as int, b@),
{
    let n = mem.len();
    let mut i: usize = 0;
    while i < b.len()
        invariant
            n == mem@.len(),
            i <= b@.len(),
            fits(mem@.len() as int, at as int, b@.len() as int),
            mem@.len() == old(mem)@.len(),
            forall|j: int| 0 <= j < at ==> #[trigger] mem@[j] == old(mem)@[j],
            forall|j: int| at <= j < at + i ==> #[trigger] mem@[j] == b@[j - at],
            forall|j: int| at + i <= j < mem@.len() ==> #[trigger] mem@[j] == old(mem)@[j],
        decreases b@.len() - i,
    {
        mem[at + i] = b[i];
        i = i + 1;
    }
    assert(mem@ =~= spliced(old(mem)@, at as int, b@));
}

/// The little-endian `u32` at offset `at` of `m`.
pub open spec fn u32_at(m: Seq<u8>, at: int) -> u32 {
    spec_u32_from_le_bytes(m.subrange(at, at + 4))
}

/// Reads the little-endian `u32` at offset `at`.
pub fn read_u32(mem: &[u8], at: usize) -> (v: u32)
    requires
        fits(mem@.len() as int, at as int, 4),
    ensures
        v == u32_at(mem@, at as int),
{
    let _n = mem.len();
    u32_from_le_bytes(slice_subrange(mem, at, at + 4))
}

/// Writes `v` as a little-endian `u32` at `at`, or gives 1 (`EINVAL`) and
/// leaves memory as it is when it does not fit.
pub fn store_u32(mem: &mut [u8], at: usize, v: u32) -> (r: i32)
    ensures
        fits(old(mem)@.len() as int, at as int, 4) ==> r == 0
            && final(mem)@ == spliced(old(mem)@, at as int, spec_u32_to_le_bytes(v)),
        !fits(old(mem)@.len() as int, at as int, 4) ==> r == 1 && final(mem)@ == old(mem)@,
{
    if !fits_in(mem.len(), at, 4) {
        return 1;
    }
    let b = u32_to_le_bytes(v);
    proof {
        lemma_auto_spec_u32_to_from_le_bytes();
    }
    write_bytes(mem, at, b.as_slice());
    0
}

/// Writes `v` as a little-endian `u64` at `at`, or gives 1 and leaves
/// memory as it is when it does not fit.
pub fn store_u64(mem: &mut [u8], at: usize, v: u64) -> (r: i32)
    ensures
        fits(old(mem)@.len() as int, at as int, 8) ==> r == 0
            && final(mem)@ == spliced(old(mem)@, at as int, spec_u64_to_le_bytes(v)),
        !fits(old(mem)@.len() as int, at as int, 8) ==> r == 1 && final(mem)@ == old(mem)@,
{
    if !fits_in(mem.len(), at, 8) {
        return 1;
    }
    let b = u64_to_le_bytes(v);
    proof {
        lemma_auto_spec_u64_to_from_le_bytes();
    }
    write_bytes(mem, at, b.as_slice());
    0
}

/// The WASI file type of a descriptor slot: 3 directory, 4 regular file,
/// 5 socket, 0 free.
pub open spec fn file_type(e: Option<FDEntry>) -> u8 {
    match e {
        Some(FDEntry::File { is_directory, .. }) => if is_directory { 3u8 } else { 4u8 },
        Some(FDEntry::Socket { .. }) => 5u8,
        None => 0u8,
    }
}

/// The 24-byte `fdstat` of a slot: its file type, no flags, and every right.
pub open spec fn fdstat_bytes(e: Option<FDEntry>) -> Seq<u8> {
    seq![file_type(e)] + Seq::new(7, |i: int| 0u8) + Seq::new(16, |i: int| 0xffu8)
}

/// `fd_fdstat_get`: writes the `fdstat` of `fd` at `buf`. 8 (`EBADF`) for
/// an `fd` outside the table, 1 when the record does not fit in memory.
pub fn wasi_fd_fdstat_get(table: &FDTable, mem: &mut [u8], fd: i32, buf: u32) -> (r: i32)
    ensures
        !fd_in_range(fd) ==> r == 8 && final(mem)@ == old(mem)@,
        fd_in_range(fd) && !fits(old(mem)@.len() as int, buf as int, 24) ==> r == 1 && final(mem)@ == old(mem)@,
        fd_in_range(fd) && fits(old(mem)@.len() as int, buf as int, 24) ==> r == 0
            && final(mem)@ == spliced(old(mem)@, buf as int, fdstat_bytes(table.slot(fd as int))),
{
    if fd < 0 || fd as usize >= MAX_FDS {
        return 8;
    }
    let ft: u8 = match &table.entries[fd as usize] {
        Some(FDEntry::File { is_directory, .. }) => if *is_directory { 3 } else { 4 },
        Some(FDEntry::Socket { .. }) => 5,
        None => 0,
    };
    let mut st: Vec<u8> = Vec::new();
    st.push(ft);
    let mut i: usize = 1;
    while i < 24
        invariant
            1 <= i <= 24,
            st@.len() == i,
            st@[0] == ft,
            forall|j: int| 1 <= j < i ==> #[trigger] st@[j] == (if j < 8 { 0u8 } else { 0xffu8 }),
        decreases 24 - i,
    {
        if i < 8 {
            st.push(0);
        } else {
            st.push(0xff);
        }
        i = i + 1;
    }
    assert(st@ =~= fdstat_bytes(table.slot(fd as int)));
    let addr = buf as usize;
    if !fits_in(mem.len(), addr, 24) {
        return 1;
    }
    write_bytes(mem, addr, st.as_slice());
    0
}

/// The read position that `fd_seek` moves a file to: from the start (0),
/// the current position (1) or the end (2); `None` for another `whence`.
pub open spec fn seek_target(read_ptr: int, len: int, offset: int, whence: i32) -> Option<int> {
    if whence == 0 {
        Some(offset)
    } else if whence == 1 {
        Some(read_ptr + offset)
    } else if whence == 2 {
        Some(len + offset)
    } else {
        None
    }
}

/// Read position and length of the file in `e`, if it is a file.
pub open spec fn file_pos(e: Option<FDEntry>) -> Option<(int, int)> {
    match e {
        Some(FDEntry::File { buffer, read_ptr, .. }) => Some((read_ptr as int, buffer@.len() as int)),
        _ => None,
    }
}

/// Read position of the file in `e`.
pub open spec fn file_read_pos(e: Option<FDEntry>) -> int {
    match e {
        Some(FDEntry::File { read_ptr, .. }) => read_ptr as int,
        _ => 0,
    }
}

/// `e` is a preopened directory.
pub open spec fn is_preopen_dir(e: Option<FDEntry>) -> bool {
    match e {
        Some(FDEntry::File { is_preopen, is_directory, .. }) => is_preopen && is_directory,
        _ => false,
    }
}

/// `e` is the file `old` with its read position moved to `pos`.
pub open spec fn moved_file(old: Option<FDEntry>, new: Option<FDEntry>, pos: int) -> bool {
    match (old, new) {
        (Some(FDEntry::File { buffer: b0, read_ptr: _, is_directory: d0, is_preopen: p0, host_path: h0 }),
         Some(FDEntry::File { buffer: b1, read_ptr: r1, is_directory: d1, is_preopen: p1, host_path: h1 })) =>
            b1 == b0 && r1 == pos && d1 == d0 && p1 == p0 && h1 == h0,
        _ => false,
    }
}

impl FDTable {
    /// Moves the read position of the file in slot `i` to `pos`.
    pub fn set_read_ptr(&mut self, i: usize, pos: usize)
        requires
            i < MAX_FDS,
            old(self).slot(i as int) matches Some(FDEntry::File { .. }),
        ensures
            final(self).entries@ == old(self).entries@.update(i as int, final(self).slot(i as int)),
            moved_file(old(self).slot(i as int), final(self).slot(i as int), pos as int),
    {
        let mut entry: Option<FDEntry> = None;
        std::mem::swap(&mut entry, &mut self.entries[i]);
        match entry {
            Some(FDEntry::File { buffer, read_ptr, is_directory, is_preopen, host_path }) => {
                self.entries[i] = Some(FDEntry::File { buffer, read_ptr: pos, is_directory, is_preopen, host_path });
            },
            other => {
                self.entries[i] = other;
            },
        }
        assert(self.entries@ =~= old(self).entries@.update(i as int, self.slot(i as int)));
    }
}

/// `fd_seek`: moves the read position of the file `fd` and, where
/// `newoffset` is not 0, writes the new position there. 8 (`EBADF`) when
/// `fd` is not a file, 28 (`EINVAL`) for another `whence` or a position
/// outside the file, 1 when the new position does not fit in memory (the
/// file has moved all the same).
pub fn wasi_fd_seek(table: &mut FDTable, mem: &mut [u8], fd: i32, offset: i64, whence: i32, newoffset: u32) -> (r: i32)
    ensures
        !(fd_in_range(fd) && file_pos(old(table).slot(fd as int)) is Some) ==> r == 8
            && *final(table) == *old(table) && final(mem)@ == old(mem)@,
        fd_in_range(fd) && file_pos(old(table).slot(fd as int)) is Some ==> ({
            let (read_ptr, len) = file_pos(old(table).slot(fd as int))->0;
            let target = seek_target(read_ptr, len, offset as int, whence);
            if target is None || target->0 < 0 || target->0 > len {
                r == 28 && *final(table) == *old(table) && final(mem)@ == old(mem)@
            } else {
                &&& final(table).entries@ == old(table).entries@.update(fd as int, final(table).slot(fd as int))
                &&& moved_file(old(table).slot(fd as int), final(table).slot(fd as int), target->0)
                &&& if newoffset == 0 {
                    r == 0 && final(mem)@ == old(mem)@
                } else if fits(old(mem)@.len() as int, newoffset as int, 8) {
                    r == 0 && final(mem)@ == spliced(old(mem)@, newoffset as int, spec_u64_to_le_bytes(target->0 as u64))
                } else {
                    r == 1 && final(mem)@ == old(mem)@
                }
            }
        }),
{
    if fd < 0 || fd as usize >= MAX_FDS {
        return 8;
    }
    let i = fd as usize;
    let (cur, len) = match &table.entries[i] {
        Some(FDEntry::File { read_ptr, buffer, .. }) => (*read_ptr as i128, buffer.len() as i128),
        _ => return 8,
    };
    let off = offset as i128;
    let target: i128 = if whence == 0 {
        off
    } else if whence == 1 {
        cur + off
    } else if whence == 2 {
        len + off
    } else {
        return 28;
    };
    if target < 0 || target > len {
        return 28;
    }
    table.set_read_ptr(i, target as usize);
    if newoffset != 0 {
        return store_u64(mem, newoffset as usize, target as u64);
    }
    0
}

/// `fd_tell`: writes the read position of the file `fd` at `offset_ptr`.
/// 8 (`EBADF`) when `fd` is not a file, 21 (`EFAULT`) when it does not fit
/// in memory.
pub fn wasi_fd_tell(table: &FDTable, mem: &mut [u8], fd: u32, offset_ptr: u32) -> (r: u32)
    ensures
        !(fd < MAX_FDS && file_pos(table.slot(fd as int)) is Some) ==> r == 8
            && final(mem)@ == old(mem)@,
        fd < MAX_FDS && file_pos(table.slot(fd as int)) is Some ==> (
            if fits(old(mem)@.len() as int, offset_ptr as int, 8) {
                r == 0 && final(mem)@ == spliced(old(mem)@, offset_ptr as int,
                    spec_u64_to_le_bytes(file_read_pos(table.slot(fd as int)) as u64))
            } else {
                r == 21 && final(mem)@ == old(mem)@
            }),
{
    if fd as usize >= MAX_FDS {
        return 8;
    }
    let pos = match &table.entries[fd as usize] {
        Some(FDEntry::File { read_ptr, .. }) => *read_ptr as u64,
        _ => return 8,
    };
    if store_u64(mem, offset_ptr as usize, pos) != 0 {
        return 21;
    }
    0
}

/// `fd_sync` and `fd_datasync`: nothing to write back for in-memory files;
/// 0 for an open descriptor, 8 (`EBADF`) otherwise.
pub fn wasi_fd_sync(table: &FDTable, fd: u32) -> (r: u32)
    ensures
        r == (if fd < MAX_FDS && table.slot(fd as int) is Some { 0u32 } else { 8u32 }),
{
    if fd as usize >= MAX_FDS {
        return 8;
    }
    match &table.entries[fd as usize] {
        Some(_) => 0,
        None => 8,
    }
}

pub fn wasi_fd_datasync(table: &FDTable, fd: u32) -> (r: u32)
    ensures
        r == (if fd < MAX_FDS && table.slot(fd as int) is Some { 0u32 } else { 8u32 }),
{
    wasi_fd_sync(table, fd)
}

/// `fd_close`: frees slot `fd`; 8 (`EBADF`) outside the table.
pub fn wasi_fd_close(table: &mut FDTable, fd: i32) -> (r: i32)
    ensures
        !fd_in_range(fd) ==> r == 8 && *final(table) == *old(table),
        fd_in_range(fd) ==> r == 0 && final(table).entries@ == old(table).entries@.update(fd as int, None),
{
    if fd < 0 || fd as usize >= MAX_FDS {
        return 8;
    }
    table.deallocate_fd(fd);
    0
}

/// The 8-byte prestat of the root directory: type 0 (a directory) and a
/// name of length 1 (`.`).
pub open spec fn prestat_bytes() -> Seq<u8> {
    seq![0u8, 0u8, 0u8, 0u8, 1u8, 0u8, 0u8, 0u8]
}

/// `fd_prestat_get`: only a preopened directory has a prestat, whose name
/// is `.`. 8 (`EBADF`) for any other `fd`, 1 when it does not fit.
pub fn wasi_fd_prestat_get(table: &FDTable, mem: &mut [u8], fd: i32, prestat_ptr: u32) -> (r: i32)
    ensures
        !(fd_in_range(fd) && is_preopen_dir(table.slot(fd as int))) ==> r == 8 && final(mem)@ == old(mem)@,
        fd_in_range(fd) && is_preopen_dir(table.slot(fd as int)) ==> (
            if fits(old(mem)@.len() as int, prestat_ptr as int, 8) {
                r == 0 && final(mem)@ == spliced(old(mem)@, prestat_ptr as int, prestat_bytes())
            } else {
                r == 1 && final(mem)@ == old(mem)@
            }),
{
    if fd < 0 || fd as usize >= MAX_FDS {
        return 8;
    }
    let (pre, dir) = match &table.entries[fd as usize] {
        Some(FDEntry::File { is_preopen, is_directory, .. }) => (*is_preopen, *is_directory),
        _ => return 8,
    };
    if !pre || !dir {
        return 8;
    }
    let b: Vec<u8> = vec![0u8, 0u8, 0u8, 0u8, 1u8, 0u8, 0u8, 0u8];
    assert(b@ =~= prestat_bytes());
    let at = prestat_ptr as usize;
    if !fits_in(mem.len(), at, 8) {
        return 1;
    }
    write_bytes(mem, at, b.as_slice());
    0
}

/// `fd_prestat_dir_name`: the name of the preopened directory is `.`.
/// 1 when `path_len` is under 1 or the name does not fit in memory.
pub fn wasi_fd_prestat_dir_name(mem: &mut [u8], path_ptr: u32, path_len: i32) -> (r: i32)
    ensures
        path_len < 1 ==> r == 1 && final(mem)@ == old(mem)@,
        path_len >= 1 && !fits(old(mem)@.len() as int, path_ptr as int, 1) ==> r == 1 && final(mem)@ == old(mem)@,
        path_len >= 1 && fits(old(mem)@.len() as int, path_ptr as int, 1) ==> r == 0
            && final(mem)@ == spliced(old(mem)@, path_ptr as int, seq![46u8]),
{
    if path_len < 1 {
        return 1;
    }
    let at = path_ptr as usize;
    if !fits_in(mem.len(), at, 1) {
        return 1;
    }
    let b: Vec<u8> = vec![46u8];
    assert(b@ =~= seq![46u8]);
    write_bytes(mem, at, b.as_slice());
    0
}

/// Resolution of every clock: one millisecond, in nanoseconds.
pub const CLOCK_RESOLUTION: u64 = 1_000_000;

/// `clock_res_get`: writes the resolution; 1 when it does not fit.
pub fn wasi_clock_res_get(mem: &mut [u8], resolution_ptr: u32) -> (r: u32)
    ensures
        fits(old(mem)@.len() as int, resolution_ptr as int, 8) ==> r == 0
            && final(mem)@ == spliced(old(mem)@, resolution_ptr as int, spec_u64_to_le_bytes(CLOCK_RESOLUTION)),
        !fits(old(mem)@.len() as int, resolution_ptr as int, 8) ==> r == 1 && final(mem)@ == old(mem)@,
{
    if store_u64(mem, resolution_ptr as usize, CLOCK_RESOLUTION) == 0 { 0 } else { 1 }
}

/// `clock_time_get`: writes the deterministic time `now`, whatever the
/// clock; 1 when it does not fit.
pub fn wasi_clock_time_get(now: u64, mem: &mut [u8], time_ptr: u32) -> (r: u32)
    ensures
        fits(old(mem)@.len() as int, time_ptr as int, 8) ==> r == 0
            && final(mem)@ == spliced(old(mem)@, time_ptr as int, spec_u64_to_le_bytes(now)),
        !fits(old(mem)@.len() as int, time_ptr as int, 8) ==> r == 1 && final(mem)@ == old(mem)@,
{
    if store_u64(mem, time_ptr as usize, now) == 0 { 0 } else { 1 }
}

/// The iovec at index `i` of the table at `iovs`: buffer offset and length.
pub open spec fn iov(m: Seq<u8>, iovs: int, i: int) -> (int, int) {
    (u32_at(m, iovs + 8 * i) as int, u32_at(m, iovs + 8 * i + 4) as int)
}

pub open spec fn min_int(a: int, b: int) -> int {
    if a <= b { a } else { b }
}

/// Number of iovecs that a length argument stands for: none when negative.
pub open spec fn iov_count(iovs_len: i32) -> int {
    if iovs_len > 0 { iovs_len as int } else { 0 }
}

/// The check `fd_read` makes before it copies: walking iovecs `i..n` with
/// `len - total` bytes still to place, every iovec and its buffer lie in
/// memory until the bytes run out.
pub open spec fn check_pass(m: Seq<u8>, iovs: int, n: int, i: int, len: int, total: int) -> bool
    decreases n - i,
{
    if i >= n {
        true
    } else if !fits(m.len() as int, iovs + 8 * i, 8) {
        false
    } else if !fits(m.len() as int, iov(m, iovs, i).0, iov(m, iovs, i).1) {
        false
    } else {
        let c = min_int(iov(m, iovs, i).1, len - total);
        if c == 0 || total + c >= len {
            true
        } else {
            check_pass(m, iovs, n, i + 1, len, total + c)
        }
    }
}

/// Copying `data[total..]` into the buffers of iovecs `i..n`, each iovec
/// read from memory as it stands then: the memory after, the bytes placed,
/// and whether no iovec or buffer was out of bounds.
pub open spec fn copy_pass(m: Seq<u8>, iovs: int, n: int, i: int, data: Seq<u8>, total: int) -> (Seq<u8>, int, bool)
    decreases n - i,
{
    if i >= n {
        (m, total, true)
    } else if !fits(m.len() as int, iovs + 8 * i, 8) {
        (m, total, false)
    } else if !fits(m.len() as int, iov(m, iovs, i).0, iov(m, iovs, i).1) {
        (m, total, false)
    } else {
        let c = min_int(iov(m, iovs, i).1, data.len() - total);
        if c == 0 {
            (m, total, true)
        } else {
            let m2 = spliced(m, iov(m, iovs, i).0, data.subrange(total, total + c));
            if total + c >= data.len() {
                (m2, total + c, true)
            } else {
                copy_pass(m2, iovs, n, i + 1, data, total + c)
            }
        }
    }
}

/// The unread bytes of the file in `e`.
pub open spec fn unread(e: Option<FDEntry>) -> Seq<u8> {
    match e {
        Some(FDEntry::File { buffer, read_ptr, .. }) =>
            if read_ptr < buffer@.len() { buffer@.skip(read_ptr as int) } else { Seq::empty() },
        _ => Seq::empty(),
    }
}

/// What a read asks of the caller.
pub enum ReadOutcome {
    /// Nothing to read yet: block the process until input comes, then retry.
    Block,
    /// Finished with this result code.
    Done(i32),
}

/// Walks the iovecs without writing: whether `check_pass` holds.
fn check_iovecs(mem: &[u8], iovs: u32, n: usize, len: usize) -> (ok: bool)
    requires
        n <= i32::MAX,
    ensures
        ok == check_pass(mem@, iovs as int, n as int, 0, len as int, 0),
{
    let mlen = mem.len();
    let mut total: usize = 0;
    let mut k: usize = 0;
    while k < n
        invariant
            mlen == mem@.len(),
            n <= i32::MAX,
            k <= n,
            total <= len,
            check_pass(mem@, iovs as int, n as int, 0, len as int, 0)
                == check_pass(mem@, iovs as int, n as int, k as int, len as int, total as int),
            k < n ==> total < len || k == 0,
        decreases n - k,
    {
        let addr: u64 = iovs as u64 + (k as u64) * 8;
        if addr > mlen as u64 || (mlen as u64) - addr < 8 {
            return false;
        }
        let off = read_u32(mem, addr as usize);
        let l = read_u32(mem, addr as usize + 4);
        if off as u64 > mlen as u64 || (mlen as u64) - (off as u64) < l as u64 {
            return false;
        }
        let c: usize = if (l as usize) <= len - total { l as usize } else { len - total };
        if c == 0 || total + c >= len {
            return true;
        }
        total = total + c;
        k = k + 1;
    }
    true
}

/// `fd_read`: copies the unread bytes of the file `fd` into the guest's
/// iovecs, in order, and writes the count at `nread`. The result is 1 when
/// `fd` is not a file or an iovec or buffer lies outside memory (found
/// before copying, or while copying, when what was copied stays), and 1
/// when the count does not fit; only a read that reports 0 moves the read
/// position. With nothing unread, the caller is asked to block.
pub fn wasi_fd_read(table: &mut FDTable, mem: &mut [u8], fd: i32, iovs: u32, iovs_len: i32, nread: u32) -> (r: ReadOutcome)
    ensures
        !(fd_in_range(fd) && file_pos(old(table).slot(fd as int)) is Some) ==> r == ReadOutcome::Done(1)
            && *final(table) == *old(table) && final(mem)@ == old(mem)@,
        fd_in_range(fd) && file_pos(old(table).slot(fd as int)) is Some ==> ({
            let (rp, len) = file_pos(old(table).slot(fd as int))->0;
            let data = unread(old(table).slot(fd as int));
            let n = iov_count(iovs_len);
            let (m1, total, ok) = copy_pass(old(mem)@, iovs as int, n, 0, data, 0);
            if rp >= len {
                r == ReadOutcome::Block && *final(table) == *old(table) && final(mem)@ == old(mem)@
            } else if !check_pass(old(mem)@, iovs as int, n, 0, data.len() as int, 0) {
                r == ReadOutcome::Done(1) && *final(table) == *old(table) && final(mem)@ == old(mem)@
            } else if !ok || !fits(m1.len() as int, nread as int, 4) {
                r == ReadOutcome::Done(1) && *final(table) == *old(table) && final(mem)@ == m1
            } else {
                &&& r == ReadOutcome::Done(0)
                &&& final(mem)@ == spliced(m1, nread as int, spec_u32_to_le_bytes(total as u32))
                &&& final(table).entries@ == old(table).entries@.update(fd as int, final(table).slot(fd as int))
                &&& moved_file(old(table).slot(fd as int), final(table).slot(fd as int), rp + total)
            }
        }),
{
    if fd < 0 || fd as usize >= MAX_FDS {
        return ReadOutcome::Done(1);
    }
    let fi = fd as usize;
    let (data, rp) = match &table.entries[fi] {
        Some(FDEntry::File { buffer, read_ptr, .. }) => {
            if *read_ptr >= buffer.len() {
                return ReadOutcome::Block;
            }
            let d = slice_to_vec(slice_subrange(buffer.as_slice(), *read_ptr, buffer.len()));
            assert(d@ =~= buffer@.skip(*read_ptr as int));
            (d, *read_ptr)
        },
        _ => return ReadOutcome::Done(1),
    };
    let n: usize = if iovs_len > 0 { iovs_len as usize } else { 0 };
    if !check_iovecs(mem, iovs, n, data.len()) {
        return ReadOutcome::Done(1);
    }
    let mlen = mem.len();
    let ghost m0 = mem@;
    let mut total: usize = 0;
    let mut k: usize = 0;
    let mut ok = true;
    while k < n
        invariant_except_break
            ok,
            copy_pass(m0, iovs as int, n as int, 0, data@, 0)
                == copy_pass(mem@, iovs as int, n as int, k as int, data@, total as int),
        invariant
            mlen == mem@.len(),
            n <= i32::MAX,
            k <= n,
            total <= data@.len(),
        ensures
            copy_pass(m0, iovs as int, n as int, 0, data@, 0) == (mem@, total as int, ok),
            total <= data@.len(),
        decreases n - k,
    {
        let addr: u64 = iovs as u64 + (k as u64) * 8;
        if addr > mlen as u64 || (mlen as u64) - addr < 8 {
            ok = false;
            break;
        }
        let off = read_u32(mem, addr as usize);
        let l = read_u32(mem, addr as usize + 4);
        if off as u64 > mlen as u64 || (mlen as u64) - (off as u64) < l as u64 {
            ok = false;
            break;
        }
        let c: usize = if (l as usize) <= data.len() - total { l as usize } else { data.len() - total };
        let ghost mk = mem@;
        assert(iov(mk, iovs as int, k as int) == (off as int, l as int));
        if c == 0 {
            assert(copy_pass(mk, iovs as int, n as int, k as int, data@, total as int) == (mk, total as int, true));
            break;
        }
        let chunk = slice_subrange(data.as_slice(), total, total + c);
        write_bytes(mem, off as usize, chunk);
        assert(chunk@ == data@.subrange(total as int, total + c));
        total = total + c;
        if total >= data.len() {
            assert(copy_pass(mk, iovs as int, n as int, k as int, data@, (total - c) as int) == (mem@, total as int, true));
            break;
        }
        k = k + 1;
    }
    if !ok {
        return ReadOutcome::Done(1);
    }
    if !fits_in(mem.len(), nread as usize, 4) {
        return ReadOutcome::Done(1);
    }
    let _ = store_u32(mem, nread as usize, #[verifier::truncate] (total as u32));
    table.set_read_ptr(fi, rp + total);
    ReadOutcome::Done(0)
}

/// The bytes `fd_readdir` hands out of `data` for a buffer of `buf_len`
/// bytes: all of them when `buf_len` is negative (it reads as a huge size).
pub open spec fn readdir_count(len: int, buf_len: i32) -> int {
    if buf_len < 0 { len } else { min_int(len, buf_len as int) }
}

/// `fd_readdir`: copies the unread bytes of the listing in `fd` (none when
/// `fd` is not a file) into `buf`, as many as fit in `buf_len`, moves the
/// read position past them and writes their count at `bufused_out`. 1 when
/// the bytes or the count do not fit in memory.
pub fn wasi_fd_readdir(table: &mut FDTable, mem: &mut [u8], fd: i32, buf: u32, buf_len: i32, bufused_out: u32) -> (r: i32)
    ensures
        ({
            let e = old(table).slot(fd as int);
            let data = if fd_in_range(fd) { unread(e) } else { Seq::<u8>::empty() };
            let n = readdir_count(data.len() as int, buf_len);
            if data.len() == 0 {
                &&& *final(table) == *old(table)
                &&& if fits(old(mem)@.len() as int, bufused_out as int, 4) {
                    r == 0 && final(mem)@ == spliced(old(mem)@, bufused_out as int, spec_u32_to_le_bytes(0))
                } else {
                    r == 1 && final(mem)@ == old(mem)@
                }
            } else if !fits(old(mem)@.len() as int, buf as int, n) {
                r == 1 && *final(table) == *old(table) && final(mem)@ == old(mem)@
            } else {
                let m1 = spliced(old(mem)@, buf as int, data.take(n));
                &&& final(table).entries@ == old(table).entries@.update(fd as int, final(table).slot(fd as int))
                &&& moved_file(e, final(table).slot(fd as int), file_read_pos(e) + n)
                &&& if fits(m1.len() as int, bufused_out as int, 4) {
                    r == 0 && final(mem)@ == spliced(m1, bufused_out as int, spec_u32_to_le_bytes(n as u32))
                } else {
                    r == 1 && final(mem)@ == m1
                }
            }
        }),
{
    let mut data: Vec<u8> = Vec::new();
    let mut rp: usize = 0;
    if fd >= 0 && (fd as usize) < MAX_FDS {
        match &table.entries[fd as usize] {
            Some(FDEntry::File { buffer, read_ptr, .. }) => {
                if *read_ptr < buffer.len() {
                    data = slice_to_vec(slice_subrange(buffer.as_slice(), *read_ptr, buffer.len()));
                    assert(data@ =~= buffer@.skip(*read_ptr as int));
                    rp = *read_ptr;
                }
            },
            _ => {},
        }
    }
    if data.len() == 0 {
        return store_u32(mem, bufused_out as usize, 0);
    }
    let n: usize = if buf_len < 0 || data.len() <= buf_len as usize { data.len() } else { buf_len as usize };
    if !fits_in(mem.len(), buf as usize, n) {
        return 1;
    }
    let chunk = slice_subrange(data.as_slice(), 0, n);
    assert(chunk@ =~= data@.take(n as int));
    write_bytes(mem, buf as usize, chunk);
    table.set_read_ptr(fd as usize, rp + n);
    store_u32(mem, bufused_out as usize, #[verifier::truncate] (n as u32))
}

/// The bytes of iovecs `i..n` in memory `m`, in order, or `None` where an
/// iovec or its buffer lies outside memory.
pub open spec fn gathered(m: Seq<u8>, iovs: int, n: int, i: int) -> Option<Seq<u8>>
    decreases n - i,
{
    if i >= n {
        Some(Seq::empty())
    } else if !fits(m.len() as int, iovs + 8 * i, 8) {
        None
    } else if !fits(m.len() as int, iov(m, iovs, i).0, iov(m, iovs, i).1) {
        None
    } else {
        match gathered(m, iovs, n, i + 1) {
            Some(rest) => Some(m.subrange(iov(m, iovs, i).0, iov(m, iovs, i).0 + iov(m, iovs, i).1) + rest),
            None => None,
        }
    }
}

/// The data that `fd_write` writes: the buffers of the iovecs at `iovs`, in
/// order; `None` (error 1) where an iovec or buffer is out of bounds.
pub fn gather_iovecs(mem: &[u8], iovs: u32, iovs_len: i32) -> (r: Option<Vec<u8>>)
    ensures
        match gathered(mem@, iovs as int, iov_count(iovs_len), 0) {
            Some(d) => r matches Some(v) && v@ == d,
            None => r is None,
        },
{
    let n: usize = if iovs_len > 0 { iovs_len as usize } else { 0 };
    let mlen = mem.len();
    let mut out: Vec<u8> = Vec::new();
    let mut k: usize = 0;
    while k < n
        invariant
            mlen == mem@.len(),
            n == iov_count(iovs_len),
            n <= i32::MAX,
            k <= n,
            gathered(mem@, iovs as int, n as int, 0) == match gathered(mem@, iovs as int, n as int, k as int) {
                Some(rest) => Some(out@ + rest),
                None => None::<Seq<u8>>,
            },
        decreases n - k,
    {
        let addr: u64 = iovs as u64 + (k as u64) * 8;
        if addr > mlen as u64 || (mlen as u64) - addr < 8 {
            return None;
        }
        let off = read_u32(mem, addr as usize);
        let l = read_u32(mem, addr as usize + 4);
        if off as u64 > mlen as u64 || (mlen as u64) - (off as u64) < l as u64 {
            return None;
        }
        let ghost before = out@;
        out.extend_from_slice(slice_subrange(mem, off as usize, off as usize + l as usize));
        proof {
            match gathered(mem@, iovs as int, n as int, k + 1) {
                Some(rest) => {
                    assert(before + (mem@.subrange(off as int, off + l) + rest) =~= out@ + rest);
                },
                None => {},
            }
        }
        k = k + 1;
    }
    assert(out@ + Seq::<u8>::empty() =~= out@);
    Some(out)
}

/// The host file behind a descriptor that `fd_write` may write to: a file
/// (not a directory) with a host path.
pub open spec fn write_path(e: Option<FDEntry>) -> Option<String> {
    match e {
        Some(FDEntry::File { host_path: Some(p), is_directory, .. }) => if is_directory { None } else { Some(p) },
        _ => None,
    }
}

/// What the caller does after a chunk of a buffered write.
pub enum WriteStep {
    /// Go on with the next chunk.
    Continue,
    /// The write buffer is full: block until the scheduler has flushed it.
    Block,
    /// The buffer is full and the data is all in: flush it now.
    Flush,
}

/// The next chunk of a buffered write: the free room of the write buffer.
pub open spec fn chunk_len(max: int, used: int, remaining: int) -> int {
    let room = if max > used { max - used } else { 0 };
    min_int(room, remaining)
}

impl ProcessData {
    /// The host path `fd_write` appends to for `fd` (see `write_path`).
    pub fn write_target(&self, fd: i32) -> (r: Option<String>)
        ensures
            r == (if fd_in_range(fd) { write_path(self.fd_table.slot(fd as int)) } else { None }),
    {
        if fd < 0 || fd as usize >= MAX_FDS {
            return None;
        }
        match &self.fd_table.entries[fd as usize] {
            Some(FDEntry::File { host_path: Some(p), is_directory, .. }) => {
                if *is_directory { None } else { Some(p.clone()) }
            },
            _ => None,
        }
    }

    /// The process stops until its write buffer, bound for `path`, is
    /// flushed.
    pub fn block_for_write(&mut self, path: String)
        ensures
            final(self).state == ProcessState::Blocked,
            final(self).block_reason == Some(BlockReason::WriteIO(path)),
            final(self).write_buffer == old(self).write_buffer,
            final(self).max_write_buffer == old(self).max_write_buffer,
            final(self).fd_table == old(self).fd_table,
            final(self).current_disk_usage == old(self).current_disk_usage,
            final(self).max_disk_usage == old(self).max_disk_usage,
    {
        self.state = ProcessState::Blocked;
        self.block_reason = Some(BlockReason::WriteIO(path));
    }

    /// Moves the next chunk of `data`, from `offset`, into the write buffer:
    /// as much as the buffer has room for. Gives the new offset and what to
    /// do next: block when the buffer is full and data remains (or had no
    /// room at all), flush when it is full and the data is all in.
    pub fn buffer_write_chunk(&mut self, data: &[u8], offset: usize) -> (r: (usize, WriteStep))
        requires
            offset < data@.len(),
        ensures
            ({
                let used = old(self).write_buffer@.len() as int;
                let max = old(self).max_write_buffer as int;
                let c = chunk_len(max, used, data@.len() - offset);
                &&& r.0 == offset + c
                &&& final(self).write_buffer@ == old(self).write_buffer@ + data@.subrange(offset as int, offset + c)
                &&& if c == 0 {
                    r.1 == WriteStep::Block
                } else if used + c == max {
                    r.1 == (if r.0 < data@.len() { WriteStep::Block } else { WriteStep::Flush })
                } else {
                    r.1 == WriteStep::Continue
                }
            }),
            final(self).max_write_buffer == old(self).max_write_buffer,
            final(self).fd_table == old(self).fd_table,
            final(self).state == old(self).state,
            final(self).block_reason == old(self).block_reason,
            final(self).current_disk_usage == old(self).current_disk_usage,
            final(self).max_disk_usage == old(self).max_disk_usage,
    {
        let used = self.write_buffer.len();
        let room = self.max_write_buffer.saturating_sub(used);
        let remaining = data.len() - offset;
        let c = if room <= remaining { room } else { remaining };
        if c == 0 {
            assert(data@.subrange(offset as int, offset as int) =~= Seq::<u8>::empty());
            assert(self.write_buffer@ =~= old(self).write_buffer@ + Seq::<u8>::empty());
            return (offset, WriteStep::Block);
        }
        self.write_buffer.extend_from_slice(slice_subrange(data, offset, offset + c));
        let next = offset + c;
        if self.write_buffer.len() == self.max_write_buffer {
            if next < data.len() {
                (next, WriteStep::Block)
            } else {
                (next, WriteStep::Flush)
            }
        } else {
            (next, WriteStep::Continue)
        }
    }
}

/// The write buffer never grows past its limit: a chunk fills at most the
/// room that is left.
pub proof fn lemma_write_buffer_bounded(max: int, used: int, remaining: int)
    requires
        0 <= used <= max,
        0 <= remaining,
    ensures
        0 <= chunk_len(max, used, remaining) <= remaining,
        used + chunk_len(max, used, remaining) <= max,
        chunk_len(max, used, remaining) == 0 <==> (used == max || remaining == 0),
{
}

/// One subscription of `poll_oneoff`: its user data, its type and when it
/// fires.
#[derive(Clone, Copy)]
pub struct Subscription {
    pub userdata: u64,
    pub sub_type: u16,
    pub wake_time: u64,
}

/// Bytes per subscription and per event record.
pub const SUBSCRIPTION_SIZE: usize = 48;
pub const EVENT_SIZE: usize = 32;

/// A timeout of 0 means one second.
pub open spec fn sleep_for(timeout: u64) -> u64 {
    if timeout == 0 { 1_000_000_000 } else { timeout }
}

/// Subscription `i` of the array at `ptr`, read at time `now`: user data at
/// offset 0, type at 8, timeout at 24; it fires `now` plus its sleep later,
/// wrapping past `u64::MAX`.
pub open spec fn subscription_at(m: Seq<u8>, ptr: int, i: int, now: u64) -> Subscription {
    let at = ptr + 48 * i;
    Subscription {
        userdata: spec_u64_from_le_bytes(m.subrange(at, at + 8)),
        sub_type: spec_u16_from_le_bytes(m.subrange(at + 8, at + 10)),
        wake_time: ((now + sleep_for(spec_u64_from_le_bytes(m.subrange(at + 24, at + 32)))) % 0x1_0000_0000_0000_0000) as u64,
    }
}

/// The earliest wake time of `subs`; `u64::MAX` for none.
pub open spec fn earliest_wake(subs: Seq<Subscription>) -> u64
    decreases subs.len(),
{
    if subs.len() == 0 {
        u64::MAX
    } else {
        let e = earliest_wake(subs.drop_last());
        if subs.last().wake_time < e { subs.last().wake_time } else { e }
    }
}

/// `poll_oneoff`, before it blocks: reads the `nsubscriptions` subscriptions
/// at `subscriptions_ptr` and gives them with the earliest wake time, which
/// the process then sleeps until; `None` (error 1) when the array does not
/// fit in memory.
pub fn poll_subscriptions(mem: &[u8], subscriptions_ptr: u32, nsubscriptions: i32, now: u64) -> (r: Option<(Vec<Subscription>, u64)>)
    requires
        nsubscriptions >= 0,
    ensures
        !fits(mem@.len() as int, subscriptions_ptr as int, 48 * nsubscriptions) ==> r is None,
        fits(mem@.len() as int, subscriptions_ptr as int, 48 * nsubscriptions) ==> (r matches Some((subs, earliest))
            && subs@ == Seq::new(nsubscriptions as nat, |i: int| subscription_at(mem@, subscriptions_ptr as int, i, now))
            && earliest == earliest_wake(subs@)
            && (forall|i: int| 0 <= i < subs@.len() ==> earliest <= #[trigger] subs@[i].wake_time)
            && (subs@.len() > 0 ==> exists|i: int| 0 <= i < subs@.len() && earliest == #[trigger] subs@[i].wake_time)
            && (subs@.len() == 0 ==> earliest == u64::MAX)),
{
    let mlen = mem.len();
    let n = nsubscriptions as usize;
    let ptr = subscriptions_ptr as usize;
    if (ptr as u64) + (n as u64) * 48 > mlen as u64 {
        return None;
    }
    let mut subs: Vec<Subscription> = Vec::new();
    let mut earliest: u64 = u64::MAX;
    let mut i: usize = 0;
    while i < n
        invariant
            mlen == mem@.len(),
            n == nsubscriptions,
            ptr == subscriptions_ptr,
            ptr + 48 * n <= mlen,
            i <= n,
            subs@ == Seq::new(i as nat, |j: int| subscription_at(mem@, ptr as int, j, now)),
            earliest == earliest_wake(subs@),
        decreases n - i,
    {
        let at = ptr + i * 48;
        let userdata = u64_from_le_bytes(slice_subrange(mem, at, at + 8));
        let sub_type = u16_from_le_bytes(slice_subrange(mem, at + 8, at + 10));
        let timeout = u64_from_le_bytes(slice_subrange(mem, at + 24, at + 32));
        let sleep = if timeout == 0 { 1_000_000_000 } else { timeout };
        let wake_time = now.wrapping_add(sleep);
        let s = Subscription { userdata, sub_type, wake_time };
        assert(s == subscription_at(mem@, ptr as int, i as int, now));
        let ghost before = subs@;
        subs.push(s);
        assert(subs@ =~= Seq::new((i + 1) as nat, |j: int| subscription_at(mem@, ptr as int, j, now)));
        assert(subs@.drop_last() =~= before);
        if wake_time < earliest {
            earliest = wake_time;
        }
        i = i + 1;
    }
    proof {
        lemma_earliest_wake_is_min(subs@);
    }
    Some((subs, earliest))
}

/// The time `poll_oneoff` sleeps until is the earliest wake time of its
/// subscriptions: no subscription wakes before it and one wakes at it; with
/// no subscription there is nothing to wake for.
pub proof fn lemma_earliest_wake_is_min(subs: Seq<Subscription>)
    ensures
        forall|i: int| 0 <= i < subs.len() ==> earliest_wake(subs) <= #[trigger] subs[i].wake_time,
        subs.len() > 0 ==> exists|i: int| 0 <= i < subs.len() && earliest_wake(subs) == #[trigger] subs[i].wake_time,
        subs.len() == 0 ==> earliest_wake(subs) == u64::MAX,
    decreases subs.len(),
{
    if subs.len() > 0 {
        let init = subs.drop_last();
        lemma_earliest_wake_is_min(init);
        assert forall|i: int| 0 <= i < subs.len() implies earliest_wake(subs) <= #[trigger] subs[i].wake_time by {
            if i < subs.len() - 1 {
                assert(subs[i] == init[i]);
            }
        }
        if subs.last().wake_time < earliest_wake(init) || init.len() == 0 {
            assert(earliest_wake(subs) == subs[subs.len() - 1].wake_time);
        } else {
            let j = choose|j: int| 0 <= j < init.len() && earliest_wake(init) == #[trigger] init[j].wake_time;
            assert(subs[j] == init[j]);
        }
    }
}

/// The subscriptions of `subs` that have fired at time `now`, in order.
pub open spec fn fired(subs: Seq<Subscription>, now: u64) -> Seq<Subscription>
    decreases subs.len(),
{
    if subs.len() == 0 {
        Seq::empty()
    } else if now >= subs.last().wake_time {
        fired(subs.drop_last(), now).push(subs.last())
    } else {
        fired(subs.drop_last(), now)
    }
}

/// The 32-byte event record of a fired subscription: user data, error 0,
/// type, then zeros.
pub open spec fn event_bytes(s: Subscription) -> Seq<u8> {
    spec_u64_to_le_bytes(s.userdata) + seq![0u8, 0u8] + spec_u16_to_le_bytes(s.sub_type) + Seq::new(20, |i: int| 0u8)
}

/// Memory `m` with the records of `evs` written one after another from `base`.
pub open spec fn events_written(m: Seq<u8>, evs: Seq<Subscription>, base: int) -> Seq<u8>
    decreases evs.len(),
{
    if evs.len() == 0 {
        m
    } else {
        spliced(events_written(m, evs.drop_last(), base), base + 32 * (evs.len() - 1), event_bytes(evs.last()))
    }
}

/// `poll_oneoff`, once the process runs again: writes an event for each
/// subscription that has fired by `now`, in order from `events_ptr`, and
/// their count as a `u64` at `nevents_ptr`. 1 when the event area (room for
/// every subscription) or the count does not fit; the events stay written
/// in the second case.
pub fn poll_events(mem: &mut [u8], subs: &Vec<Subscription>, events_ptr: u32, nevents_ptr: u32, now: u64) -> (r: i32)
    ensures
        !fits(old(mem)@.len() as int, events_ptr as int, 32 * subs@.len() as int) ==> r == 1 && final(mem)@ == old(mem)@,
        fits(old(mem)@.len() as int, events_ptr as int, 32 * subs@.len() as int) ==> ({
            let evs = fired(subs@, now);
            let m1 = events_written(old(mem)@, evs, events_ptr as int);
            if fits(m1.len() as int, nevents_ptr as int, 8) {
                r == 0 && final(mem)@ == spliced(m1, nevents_ptr as int, spec_u64_to_le_bytes(evs.len() as u64))
            } else {
                r == 1 && final(mem)@ == m1
            }
        }),
{
    let mlen = mem.len();
    let base = events_ptr as usize;
    if (base as u128) + (subs.len() as u128) * 32 > mlen as u128 {
        return 1;
    }
    let ghost m0 = mem@;
    let mut k: usize = 0;
    let mut i: usize = 0;
    while i < subs.len()
        invariant
            mlen == mem@.len(),
            base == events_ptr,
            base + 32 * subs@.len() <= mlen,
            i <= subs@.len(),
            k <= i,
            fired(subs@.take(i as int), now).len() == k,
            mem@ == events_written(m0, fired(subs@.take(i as int), now), base as int),
        decreases subs@.len() - i,
    {
        let s = subs[i];
        assert(subs@.take(i + 1).drop_last() =~= subs@.take(i as int));
        assert(subs@.take(i + 1).last() == s);
        if now >= s.wake_time {
            let mut rec: Vec<u8> = u64_to_le_bytes(s.userdata);
            rec.push(0);
            rec.push(0);
            let mut t = u16_to_le_bytes(s.sub_type);
            rec.append(&mut t);
            let mut j: usize = 0;
            while j < 20
                invariant
                    j <= 20,
                    rec@.len() == 12 + j,
                    rec@.take(12) == spec_u64_to_le_bytes(s.userdata) + seq![0u8, 0u8] + spec_u16_to_le_bytes(s.sub_type),
                    forall|q: int| 12 <= q < 12 + j ==> #[trigger] rec@[q] == 0u8,
                decreases 20 - j,
            {
                proof {
                    lemma_auto_spec_u64_to_from_le_bytes();
                    lemma_auto_spec_u16_to_from_le_bytes();
                }
                let ghost r0 = rec@;
                rec.push(0);
                assert(rec@.take(12) =~= r0.take(12));
                j = j + 1;
            }
            proof {
                lemma_auto_spec_u64_to_from_le_bytes();
                lemma_auto_spec_u16_to_from_le_bytes();
            }
            assert(rec@ =~= event_bytes(s));
            let ghost evs = fired(subs@.take(i + 1), now);
            assert(evs.drop_last() == fired(subs@.take(i as int), now));
            write_bytes(mem, base + k * 32, rec.as_slice());
            k = k + 1;
        }
        i = i + 1;
    }
    assert(subs@.take(subs@.len() as int) =~= subs@);
    store_u64(mem, nevents_ptr as usize, k as u64)
}

/// The UTF-8 bytes of each argument.
pub open spec fn arg_bytes(args: Seq<String>) -> Seq<Seq<u8>> {
    args.map_values(|a: String| encode_utf8(a@))
}

/// Size of the argument buffer: each argument and its terminating zero.
pub open spec fn blob_len(bs: Seq<Seq<u8>>) -> int
    decreases bs.len(),
{
    if bs.len() == 0 { 0 } else { blob_len(bs.drop_last()) + bs.last().len() + 1 }
}

proof fn lemma_blob_len_prefix(bs: Seq<Seq<u8>>, i: int)
    requires
        0 <= i <= bs.len(),
    ensures
        blob_len(bs.take(i)) <= blob_len(bs),
    decreases bs.len() - i,
{
    if i < bs.len() {
        lemma_blob_len_prefix(bs.drop_last(), i);
        assert(bs.drop_last().take(i) =~= bs.take(i));
    } else {
        assert(bs.take(i) =~= bs);
    }
}

/// `args_sizes_get`: writes the number of arguments at `argc_ptr` and the
/// size of the argument buffer at `argv_buf_size_ptr`.
pub fn wasi_args_sizes_get(args: &Vec<String>, mem: &mut [u8], argc_ptr: u32, argv_buf_size_ptr: u32) -> (r: u32)
    requires
        fits(old(mem)@.len() as int, argc_ptr as int, 4),
        fits(old(mem)@.len() as int, argv_buf_size_ptr as int, 4),
        blob_len(arg_bytes(args@)) <= u32::MAX,
    ensures
        r == 0,
        final(mem)@ == spliced(spliced(old(mem)@, argc_ptr as int, spec_u32_to_le_bytes(args@.len() as u32)),
            argv_buf_size_ptr as int, spec_u32_to_le_bytes(blob_len(arg_bytes(args@)) as u32)),
{
    let ghost bs = arg_bytes(args@);
    let mut size: u32 = 0;
    let mut i: usize = 0;
    while i < args.len()
        invariant
            i <= args@.len(),
            bs == arg_bytes(args@),
            blob_len(bs) <= u32::MAX,
            size == blob_len(bs.take(i as int)),
        decreases args@.len() - i,
    {
        proof {
            lemma_blob_len_prefix(bs, i + 1);
            assert(bs.take(i + 1).drop_last() =~= bs.take(i as int));
        }
        let n = args[i].as_str().as_bytes().len();
        size = size + n as u32 + 1;
        i = i + 1;
    }
    assert(bs.take(args@.len() as int) =~= bs);
    assert(args@.len() <= blob_len(bs)) by {
        lemma_blob_at_least_count(bs);
    }
    let _ = store_u32(mem, argc_ptr as usize, args.len() as u32);
    let _ = store_u32(mem, argv_buf_size_ptr as usize, size);
    0
}

proof fn lemma_blob_at_least_count(bs: Seq<Seq<u8>>)
    ensures
        bs.len() <= blob_len(bs),
    decreases bs.len(),
{
    if bs.len() > 0 {
        lemma_blob_at_least_count(bs.drop_last());
    }
}

/// Memory `m` after `args_get` has written the arguments `bs`: for each in
/// turn, its address in the table at `argv` and its bytes and a zero in the
/// buffer at `buf`.
pub open spec fn args_written(m: Seq<u8>, bs: Seq<Seq<u8>>, argv: int, buf: int) -> Seq<u8>
    decreases bs.len(),
{
    if bs.len() == 0 {
        m
    } else {
        let m1 = args_written(m, bs.drop_last(), argv, buf);
        let off = buf + blob_len(bs.drop_last());
        spliced(spliced(m1, argv + 4 * (bs.len() - 1), spec_u32_to_le_bytes(off as u32)), off, bs.last().push(0u8))
    }
}

/// `args_get`: writes the address of each argument at `argv_ptr` and the
/// arguments, each followed by a zero, at `argv_buf_ptr`.
pub fn wasi_args_get(args: &Vec<String>, mem: &mut [u8], argv_ptr: u32, argv_buf_ptr: u32) -> (r: u32)
    requires
        fits(old(mem)@.len() as int, argv_ptr as int, 4 * args@.len() as int),
        fits(old(mem)@.len() as int, argv_buf_ptr as int, blob_len(arg_bytes(args@))),
        argv_buf_ptr + blob_len(arg_bytes(args@)) <= u32::MAX,
    ensures
        r == 0,
        final(mem)@ == args_written(old(mem)@, arg_bytes(args@), argv_ptr as int, argv_buf_ptr as int),
{
    let ghost bs = arg_bytes(args@);
    let ghost m0 = mem@;
    let mlen = mem.len();
    let mut off: usize = argv_buf_ptr as usize;
    let mut i: usize = 0;
    while i < args.len()
        invariant
            mlen == mem@.len(),
            i <= args@.len(),
            bs == arg_bytes(args@),
            argv_ptr + 4 * args@.len() <= mlen,
            argv_buf_ptr + blob_len(bs) <= mlen,
            argv_buf_ptr + blob_len(bs) <= u32::MAX,
            off == argv_buf_ptr + blob_len(bs.take(i as int)),
            mem@ == args_written(m0, bs.take(i as int), argv_ptr as int, argv_buf_ptr as int),
        decreases args@.len() - i,
    {
        proof {
            lemma_blob_len_prefix(bs, i + 1);
            assert(bs.take(i + 1).drop_last() =~= bs.take(i as int));
        }
        let b = args[i].as_str().as_bytes();
        assert(b@ == bs[i as int]);
        proof {
            lemma_auto_spec_u32_to_from_le_bytes();
        }
        let _ = store_u32(mem, argv_ptr as usize + i * 4, off as u32);
        let mut rec = slice_to_vec(b);
        rec.push(0);
        write_bytes(mem, off, rec.as_slice());
        off = off + b.len() + 1;
        i = i + 1;
    }
    assert(bs.take(args@.len() as int) =~= bs);
    0
}

} // verus!
