use vstd::prelude::*;
use vstd::bytes::*;
use vstd::slice::{slice_subrange, slice_to_vec};
use vstd::utf8::{valid_utf8, decode_utf8, encode_utf8};
use crate::fd_table::{FDEntry, FDTable, MAX_FDS};
use crate::guest::{fits, fits_in, spliced, store_u32, write_bytes};
use crate::text::{chars_of, has_prefix_at, strict_text, trim, trim_bounds};

verus! {

broadcast use vstd::string::group_string_axioms;

/// `s` without its leading slashes, as `trim_start_matches('/')` leaves it.
pub open spec fn strip_slashes(s: Seq<char>) -> Seq<char>
    decreases s.len(),
{
    if s.len() > 0 && s[0] == '/' {
        strip_slashes(s.drop_first())
    } else {
        s
    }
}

/// The text a process names a path by, before its slashes go: the decoded
/// bytes, trimmed of whitespace where `trim_ws`.
pub open spec fn named_path(bytes: Seq<u8>, trim_ws: bool) -> Seq<char> {
    if trim_ws { trim(decode_utf8(bytes)) } else { decode_utf8(bytes) }
}

/// A path that a process passes: the `len` bytes at `ptr`, which must be
/// valid UTF-8, (trimmed of whitespace where `trim_ws`,) without leading
/// slashes, so that it is relative to the sandbox root. The error is
/// `out_of_bounds` when the bytes lie outside memory, `not_utf8` when they
/// are not UTF-8.
pub fn read_guest_path(mem: &[u8], ptr: u32, len: u32, trim_ws: bool, out_of_bounds: i32, not_utf8: i32) -> (r: Result<String, i32>)
    ensures
        !fits(mem@.len() as int, ptr as int, len as int) ==> r == Err::<String, i32>(out_of_bounds),
        fits(mem@.len() as int, ptr as int, len as int) ==> ({
            let bytes = mem@.subrange(ptr as int, ptr + len);
            if valid_utf8(bytes) {
                r matches Ok(p) && p@ == strip_slashes(named_path(bytes, trim_ws))
            } else {
                r == Err::<String, i32>(not_utf8)
            }
        }),
{
    if !fits_in(mem.len(), ptr as usize, len as usize) {
        return Err(out_of_bounds);
    }
    let bytes = slice_to_vec(slice_subrange(mem, ptr as usize, ptr as usize + len as usize));
    let ghost b = bytes@;
    let text = match strict_text(bytes) {
        Some(t) => t,
        None => return Err(not_utf8),
    };
    let chars = chars_of(text.as_str());
    let (a, z) = if trim_ws { trim_bounds(&chars, 0, chars.len()) } else { (0, chars.len()) };
    assert(chars@.subrange(0, chars@.len() as int) =~= chars@);
    let ghost named = chars@.subrange(a as int, z as int);
    assert(named == named_path(b, trim_ws));
    let mut i = a;
    while i < z && chars[i] == '/'
        invariant
            a <= i <= z <= chars@.len(),
            strip_slashes(named) == strip_slashes(chars@.subrange(i as int, z as int)),
        decreases z - i,
    {
        assert(chars@.subrange(i as int, z as int).drop_first() =~= chars@.subrange(i + 1, z as int));
        i = i + 1;
    }
    proof {
        let rest = chars@.subrange(i as int, z as int);
        if rest.len() > 0 {
            assert(rest[0] == chars@[i as int]);
        }
        assert(strip_slashes(rest) == rest);
    }
    Ok(text.as_str().substring_char(i, z).to_owned())
}

/// How an I/O error of the host is told to a process.
pub enum IoErrorKind {
    NotFound,
    PermissionDenied,
    AlreadyExists,
    Other,
}

/// The WASI error number for a host I/O error: 2 (`ENOENT`), 13 (`EACCES`),
/// 20 (`EEXIST`), else 1.
pub fn io_err_to_wasi_errno(kind: &IoErrorKind) -> (e: i32)
    ensures
        e == match *kind {
            IoErrorKind::NotFound => 2i32,
            IoErrorKind::PermissionDenied => 13i32,
            IoErrorKind::AlreadyExists => 20i32,
            IoErrorKind::Other => 1i32,
        },
{
    match kind {
        IoErrorKind::NotFound => 2,
        IoErrorKind::PermissionDenied => 13,
        IoErrorKind::AlreadyExists => 20,
        IoErrorKind::Other => 1,
    }
}

/// Where the size in a descriptor's `filestat` comes from.
pub enum FileSize {
    Known(u64),
    /// The size of this host file, which only the host can tell.
    FromHost(String),
}

/// The size source and file type of the `filestat` of slot `fd`: a socket
/// has size 0 and type 5; a file its buffered bytes when it has any, else
/// the host file's size, else 0, and type 3 (directory) or 4. `None`
/// (`EBADF`) for a free slot or an `fd` outside the table.
pub fn filestat_source(table: &FDTable, fd: u32) -> (r: Option<(FileSize, u8)>)
    ensures
        (fd >= MAX_FDS || table.slot(fd as int) is None) ==> r is None,
        fd < MAX_FDS ==> match table.slot(fd as int) {
            Some(FDEntry::Socket { .. }) => r == Some((FileSize::Known(0), 5u8)),
            Some(FDEntry::File { buffer, is_directory, host_path, .. }) => {
                let ft = if is_directory { 3u8 } else { 4u8 };
                if buffer@.len() > 0 {
                    r == Some((FileSize::Known(buffer@.len() as u64), ft))
                } else {
                    match host_path {
                        Some(p) => r == Some((FileSize::FromHost(p), ft)),
                        None => r == Some((FileSize::Known(0), ft)),
                    }
                }
            },
            None => r is None,
        },
{
    if fd as usize >= MAX_FDS {
        return None;
    }
    match &table.entries[fd as usize] {
        Some(FDEntry::File { buffer, is_directory, host_path, .. }) => {
            let ft: u8 = if *is_directory { 3 } else { 4 };
            if buffer.len() > 0 {
                Some((FileSize::Known(buffer.len() as u64), ft))
            } else {
                match host_path {
                    Some(p) => Some((FileSize::FromHost(p.clone()), ft)),
                    None => Some((FileSize::Known(0), ft)),
                }
            }
        },
        Some(FDEntry::Socket { .. }) => Some((FileSize::Known(0), 5)),
        None => None,
    }
}

/// The 64-byte `filestat`: device and inode 0, the file type, one link,
/// the size, and zero times.
pub open spec fn filestat_bytes(size: u64, filetype: u8) -> Seq<u8> {
    Seq::new(16, |i: int| 0u8) + seq![filetype] + Seq::new(7, |i: int| 0u8)
        + spec_u64_to_le_bytes(1) + spec_u64_to_le_bytes(size) + Seq::new(24, |i: int| 0u8)
}

/// Writes a `filestat` at `buf_ptr`; 21 (`EFAULT`) when it does not fit.
pub fn write_filestat(mem: &mut [u8], buf_ptr: u32, size: u64, filetype: u8) -> (r: u32)
    ensures
        fits(old(mem)@.len() as int, buf_ptr as int, 64) ==> r == 0
            && final(mem)@ == spliced(old(mem)@, buf_ptr as int, filestat_bytes(size, filetype)),
        !fits(old(mem)@.len() as int, buf_ptr as int, 64) ==> r == 21 && final(mem)@ == old(mem)@,
{
    let mut b: Vec<u8> = Vec::new();
    let mut i: usize = 0;
    while i < 16
        invariant
            i <= 16,
            b@ == Seq::new(i as nat, |j: int| 0u8),
        decreases 16 - i,
    {
        b.push(0);
        i = i + 1;
    }
    b.push(filetype);
    let mut i: usize = 0;
    while i < 7
        invariant
            i <= 7,
            b@ == Seq::new(16, |j: int| 0u8) + seq![filetype] + Seq::new(i as nat, |j: int| 0u8),
        decreases 7 - i,
    {
        b.push(0);
        i = i + 1;
    }
    let mut one = u64_to_le_bytes(1);
    b.append(&mut one);
    let mut sz = u64_to_le_bytes(size);
    b.append(&mut sz);
    let ghost head = b@;
    let mut i: usize = 0;
    while i < 24
        invariant
            i <= 24,
            b@ == head + Seq::new(i as nat, |j: int| 0u8),
        decreases 24 - i,
    {
        b.push(0);
        i = i + 1;
    }
    proof {
        lemma_auto_spec_u64_to_from_le_bytes();
    }
    assert(b@ =~= filestat_bytes(size, filetype));
    if !fits_in(mem.len(), buf_ptr as usize, 64) {
        return 21;
    }
    write_bytes(mem, buf_ptr as usize, b.as_slice());
    0
}

/// Gives a newly opened file or directory the lowest free slot and writes
/// the slot's number at `opened_fd_out`. 76 (`EMFILE`) with no free slot,
/// 1 when the number does not fit in memory (the entry stays).
pub fn install_opened(table: &mut FDTable, mem: &mut [u8], entry: FDEntry, opened_fd_out: u32) -> (r: i32)
    ensures
        ({
            let fd = old(table).spec_lowest_free();
            if fd == -1 {
                r == 76 && *final(table) == *old(table) && final(mem)@ == old(mem)@
            } else {
                &&& final(table).entries@ == old(table).entries@.update(fd as int, Some(entry))
                &&& if fits(old(mem)@.len() as int, opened_fd_out as int, 4) {
                    r == 0 && final(mem)@ == spliced(old(mem)@, opened_fd_out as int, spec_u32_to_le_bytes(fd as u32))
                } else {
                    r == 1 && final(mem)@ == old(mem)@
                }
            }
        }),
{
    let fd = table.allocate_fd();
    if fd < 0 {
        return 76;
    }
    table.install(fd as usize, entry);
    store_u32(mem, opened_fd_out as usize, fd as u32)
}

/// A directory listing as a process reads it: each name then a newline.
pub open spec fn listing(names: Seq<String>) -> Seq<u8>
    decreases names.len(),
{
    if names.len() == 0 {
        Seq::empty()
    } else {
        listing(names.drop_last()) + encode_utf8(names.last()@) + seq![10u8]
    }
}

/// The listing of a directory with entries `names`.
pub fn listing_bytes(names: &Vec<String>) -> (v: Vec<u8>)
    ensures
        v@ == listing(names@),
{
    let mut v: Vec<u8> = Vec::new();
    let mut i: usize = 0;
    while i < names.len()
        invariant
            i <= names@.len(),
            v@ == listing(names@.take(i as int)),
        decreases names@.len() - i,
    {
        assert(names@.take(i + 1).drop_last() =~= names@.take(i as int));
        v.extend_from_slice(names[i].as_str().as_bytes());
        v.push(10u8);
        i = i + 1;
    }
    assert(names@.take(names@.len() as int) =~= names@);
    v
}

/// `path_open` reads `oflags` bit 0 both as "create" and as "not
/// read-only": it gives whether to create a missing file and whether to
/// read the file's contents.
pub fn open_flags(oflags: i32) -> (r: (bool, bool))
    ensures
        r == ((oflags & 1) != 0, (oflags & 1) == 0),
{
    ((oflags & 1) != 0, (oflags & 1) == 0)
}

/// Files larger than this make `path_open` block the process as if it
/// waited for the disk.
pub const LARGE_FILE: usize = 1_000_000;

/// Whether reading `len` bytes makes the process wait.
pub fn needs_io_wait(len: usize) -> (b: bool)
    ensures
        b == (len > LARGE_FILE),
{
    len > LARGE_FILE
}

/// The host directory behind descriptor `fd`, when it is a directory
/// with a host path.
pub fn dir_host_path(table: &FDTable, fd: u32) -> (r: Option<String>)
    ensures
        r == (if fd < MAX_FDS {
            match table.slot(fd as int) {
                Some(FDEntry::File { host_path: Some(p), is_directory, .. }) => if is_directory { Some(p) } else { None },
                _ => None,
            }
        } else {
            None
        }),
{
    if fd as usize >= MAX_FDS {
        return None;
    }
    match &table.entries[fd as usize] {
        Some(FDEntry::File { host_path: Some(p), is_directory, .. }) => if *is_directory { Some(p.clone()) } else { None },
        _ => None,
    }
}

/// What `path_filestat_get` reports of a host file.
pub struct HostStat {
    pub dev: u64,
    pub ino: u64,
    pub is_dir: bool,
    pub nlink: u32,
    pub size: u64,
    pub atime: u64,
    pub mtime: u64,
    pub ctime: u64,
}

/// The 56-byte record `path_filestat_get` writes: device, inode, file
/// type (3 directory, 4 file), link count at offset 20, size and the three
/// times.
pub open spec fn path_filestat_bytes(st: HostStat) -> Seq<u8> {
    spec_u64_to_le_bytes(st.dev) + spec_u64_to_le_bytes(st.ino)
        + seq![if st.is_dir { 3u8 } else { 4u8 }, 0u8, 0u8, 0u8] + spec_u32_to_le_bytes(st.nlink)
        + spec_u64_to_le_bytes(st.size) + spec_u64_to_le_bytes(st.atime) + spec_u64_to_le_bytes(st.mtime)
        + spec_u64_to_le_bytes(st.ctime)
}

/// Writes the record of `st` at `buf_ptr`; 21 (`EFAULT`) when it does not fit.
pub fn write_path_filestat(mem: &mut [u8], buf_ptr: u32, st: &HostStat) -> (r: u32)
    ensures
        fits(old(mem)@.len() as int, buf_ptr as int, 56) ==> r == 0
            && final(mem)@ == spliced(old(mem)@, buf_ptr as int, path_filestat_bytes(*st)),
        !fits(old(mem)@.len() as int, buf_ptr as int, 56) ==> r == 21 && final(mem)@ == old(mem)@,
{
    let mut b = u64_to_le_bytes(st.dev);
    let mut x = u64_to_le_bytes(st.ino);
    b.append(&mut x);
    b.push(if st.is_dir { 3 } else { 4 });
    b.push(0);
    b.push(0);
    b.push(0);
    let mut n = u32_to_le_bytes(st.nlink);
    b.append(&mut n);
    let mut sz = u64_to_le_bytes(st.size);
    b.append(&mut sz);
    let mut a = u64_to_le_bytes(st.atime);
    b.append(&mut a);
    let mut m = u64_to_le_bytes(st.mtime);
    b.append(&mut m);
    let mut c = u64_to_le_bytes(st.ctime);
    b.append(&mut c);
    proof {
        lemma_auto_spec_u64_to_from_le_bytes();
        lemma_auto_spec_u32_to_from_le_bytes();
    }
    assert(b@ =~= path_filestat_bytes(*st));
    if !fits_in(mem.len(), buf_ptr as usize, 56) {
        return 21;
    }
    write_bytes(mem, buf_ptr as usize, b.as_slice());
    0
}

/// The canonical path `p` is `root` or lies below it, component by
/// component (as `Path::starts_with` compares canonical paths): `/a/b` lies
/// below `/a` and `/`, not below `/ab`.
pub open spec fn under_root(p: Seq<char>, root: Seq<char>) -> bool {
    ||| p == root
    ||| (p.len() > root.len() && p.take(root.len() as int) == root
        && ((root.len() > 0 && root.last() == '/') || p[root.len() as int] == '/'))
}

/// What could be resolved on the host of a path a process names: the
/// canonical form of the path itself, else of its parent directory, else
/// neither exists.
pub enum Resolved {
    Target(String),
    Parent(String),
    Neither,
}

/// The sandbox rule: a path a process names is allowed when its canonical
/// form, or else its parent's, lies under the canonical root; when neither
/// exists, when its text starts with the root's text. A path outside gets
/// `EACCES` (13).
pub open spec fn sandbox_allows(canonical_root: Seq<char>, found: Resolved, joined: Seq<char>, root: Seq<char>) -> bool {
    match found {
        Resolved::Target(c) => under_root(c@, canonical_root),
        Resolved::Parent(c) => under_root(c@, canonical_root),
        Resolved::Neither => joined.len() >= root.len() && joined.take(root.len() as int) == root,
    }
}

/// Whether the canonical path `p` is `root` or lies below it.
pub fn path_under_root(p: &str, root: &str) -> (b: bool)
    ensures
        b == under_root(p@, root@),
{
    let pc = chars_of(p);
    let rc = chars_of(root);
    if pc.len() == rc.len() {
        if has_prefix_at(&pc, 0, pc.len(), &rc) {
            assert(pc@.subrange(0, rc@.len() as int) =~= pc@);
            return true;
        }
        assert(pc@.subrange(0, rc@.len() as int) =~= pc@);
        return false;
    }
    if pc.len() < rc.len() {
        return false;
    }
    let prefix = has_prefix_at(&pc, 0, pc.len(), &rc);
    assert(pc@.subrange(0, rc@.len() as int) =~= pc@.take(rc@.len() as int));
    if !prefix {
        return false;
    }
    (rc.len() > 0 && rc[rc.len() - 1] == '/') || pc[rc.len()] == '/'
}

/// Applies the sandbox rule (see `sandbox_allows`): `Ok` when the path is
/// allowed, `Err(13)` when it is not.
pub fn sandbox_verdict(canonical_root: &str, found: &Resolved, joined: &str, root: &str) -> (r: Result<(), i32>)
    ensures
        r is Ok <==> sandbox_allows(canonical_root@, *found, joined@, root@),
        r matches Err(e) ==> e == 13,
{
    let allowed = match found {
        Resolved::Target(c) => path_under_root(c.as_str(), canonical_root),
        Resolved::Parent(c) => path_under_root(c.as_str(), canonical_root),
        Resolved::Neither => {
            let jc = chars_of(joined);
            let rc = chars_of(root);
            let b = has_prefix_at(&jc, 0, jc.len(), &rc);
            proof {
                if rc@.len() <= jc@.len() {
                    assert(jc@.subrange(0, rc@.len() as int) =~= jc@.take(rc@.len() as int));
                }
            }
            b
        },
    };
    if allowed { Ok(()) } else { Err(13) }
}

} // verus!
