use replicode::consensus_input::{
    decode_file_records, decode_pipe_batch, parse_clock_text, parse_fd_update_text, RuntimeAction,
};
use replicode::fd_table::{FDEntry, FDTable, MAX_FDS};
use replicode::fs_ops::{
    filestat_source, install_opened, io_err_to_wasi_errno, listing_bytes, needs_io_wait, open_flags,
    read_guest_path, write_filestat, FileSize, IoErrorKind,
};
use replicode::guest::{
    gather_iovecs, poll_events, poll_subscriptions, wasi_args_get, wasi_args_sizes_get, wasi_clock_res_get,
    wasi_clock_time_get, wasi_fd_close, wasi_fd_fdstat_get, wasi_fd_prestat_dir_name, wasi_fd_prestat_get,
    wasi_fd_read, wasi_fd_readdir, wasi_fd_seek, wasi_fd_sync, wasi_fd_tell, ReadOutcome, WriteStep,
};
use replicode::process::{process_root_path, sandbox_candidate, ProcessData};
use replicode::record::{encode_network_outs, encode_record};
use replicode::batch::{outgoing_batch, BatchDirection};
use replicode::clock::IdCounter;
use replicode::fs_ops::{path_under_root, sandbox_verdict, Resolved};
use replicode::scheduler::{network_still_blocked, BlockReason, ProcessState, Scheduler};
use replicode::sockets::{
    sock_accept_finish, sock_accept_request, sock_close_request, sock_connect_request, sock_listen_finish,
    sock_listen_request, sock_send_request, wasi_sock_open, wasi_sock_recv,
};
use replicode::commands::NetworkOperation;

fn process() -> ProcessData {
    ProcessData::new(1, "/sandbox".to_string(), vec![], 1000, 4)
}

fn file_with(data: &[u8]) -> FDEntry {
    FDEntry::File { buffer: data.to_vec(), read_ptr: 0, is_directory: false, is_preopen: false, host_path: None }
}

#[test]
fn new_table_layout() {
    let t = FDTable::new("/root".to_string());
    assert!(matches!(&t.entries[3], Some(FDEntry::File { is_directory: true, is_preopen: true, .. })));
    assert!(t.entries[4].is_none());
    assert_eq!(t.allocate_fd(), 4);
    assert!(!t.has_pending_input(0));
    assert!(!t.has_pending_input(-1));
}

#[test]
fn freed_descriptor_is_reused() {
    let mut t = FDTable::new("/root".to_string());
    for i in 4..MAX_FDS {
        t.entries[i] = Some(file_with(b""));
    }
    assert_eq!(t.allocate_fd(), -1);
    t.deallocate_fd(5);
    assert_eq!(t.allocate_fd(), 5);
    t.deallocate_fd(99);
    assert_eq!(t.allocate_fd(), 5);
}

#[test]
fn clock_text_parsing() {
    assert_eq!(parse_clock_text("clock: 15 "), Some(15));
    assert_eq!(parse_clock_text("clock:+7"), Some(7));
    assert_eq!(parse_clock_text("clock:x"), None);
    assert_eq!(parse_clock_text("tick:5"), None);
}

#[test]
fn fd_update_parsing() {
    assert_eq!(parse_fd_update_text("fd: 0 ,body: hello "), Some((0, b"hello".to_vec())));
    assert_eq!(parse_fd_update_text("fd:-3,body:x"), Some((-3, b"x".to_vec())));
    assert_eq!(parse_fd_update_text("fd:1,body:a,body:b"), None);
    assert_eq!(parse_fd_update_text("fx:1,body:a"), None);
    assert_eq!(parse_fd_update_text("fd:one,body:a"), None);
}

#[test]
fn pipe_batch_actions() {
    let mut data = encode_record(1, 4, b"fd:0,body:hi");
    data.extend(encode_record(2, u64::MAX, b"\0asm"));
    data.extend(encode_record(5, 4, &[0x50, 0x00, b'z']));
    data.extend(encode_record(5, 4, &[1])); // too short: ignored
    data.extend(encode_record(4, 4, b"LIST")); // file transfer: nothing for the runtime
    data.extend(encode_record(0, 0, b"clock:25"));
    data.extend(encode_record(1, 4, b"fd:0,body:late")); // after the clock: ignored
    let acts = decode_pipe_batch(&data);
    assert_eq!(acts.len(), 4);
    match &acts[0] {
        RuntimeAction::Input { pid, fd, body } => {
            assert_eq!((*pid, *fd), (4, 0));
            assert_eq!(body, &b"hi".to_vec());
        }
        _ => panic!("expected input"),
    }
    assert!(matches!(&acts[1], RuntimeAction::Start { wasm } if wasm == &b"\0asm".to_vec()));
    assert!(matches!(&acts[2], RuntimeAction::NetworkIn { pid: 4, port: 0x50, data } if data == &vec![b'z']));
    assert!(matches!(&acts[3], RuntimeAction::AdvanceClock(25)));
}

#[test]
fn pipe_batch_bad_clock_still_ends() {
    let mut data = encode_record(0, 0, b"clock:??");
    data.extend(encode_record(2, 0, b"m"));
    assert_eq!(decode_pipe_batch(&data).len(), 0);
}

#[test]
fn file_records_stop_at_clock() {
    let mut data = encode_record(1, 2, b"fd:0,body:a");
    data.extend(encode_record(1, 2, &[0xff, 0xfe])); // not UTF-8: skipped
    data.extend(encode_record(0, 0, &[0xff])); // invalid clock: skipped, batch goes on
    data.extend(encode_record(4, 2, b"ftp"));
    let first_len = data.len();
    data.extend(encode_record(0, 0, b"clock:3"));
    let end = data.len();
    data.extend(encode_record(2, 0, b"next"));
    let fb = decode_file_records(&data);
    assert!(fb.processed);
    assert_eq!(fb.consumed, end);
    assert!(first_len < end);
    assert_eq!(fb.actions.len(), 2);
    assert!(matches!(&fb.actions[1], RuntimeAction::AdvanceClock(3)));
    let rest = decode_file_records(&data[fb.consumed..]);
    assert_eq!(rest.consumed, data.len() - end);
    assert!(matches!(&rest.actions[0], RuntimeAction::Start { .. }));
    let none = decode_file_records(&[1, 2, 3]);
    assert!(!none.processed);
    assert_eq!(none.consumed, 0);
}

#[test]
fn append_input_to_files_only() {
    let mut t = FDTable::new("/r".to_string());
    assert!(t.append_input(0, b"abc"));
    assert!(t.has_pending_input(0));
    match &t.entries[0] {
        Some(FDEntry::File { buffer, .. }) => assert_eq!(buffer, &b"abc\n".to_vec()),
        _ => panic!(),
    }
    assert!(!t.append_input(6, b"x"));
    assert!(!t.append_input(-1, b"x"));
}

#[test]
fn fdstat_of_each_kind() {
    let t = FDTable::new("/r".to_string());
    let mut mem = vec![0u8; 64];
    assert_eq!(wasi_fd_fdstat_get(&t, &mut mem, 3, 8), 0);
    assert_eq!(mem[8], 3);
    assert_eq!(&mem[16..24], &[0xff; 8]);
    assert_eq!(wasi_fd_fdstat_get(&t, &mut mem, 0, 8), 0);
    assert_eq!(mem[8], 4);
    assert_eq!(wasi_fd_fdstat_get(&t, &mut mem, 9, 8), 8);
    assert_eq!(wasi_fd_fdstat_get(&t, &mut mem, 0, 50), 1);
}

#[test]
fn seek_and_tell() {
    let mut t = FDTable::new("/r".to_string());
    t.entries[4] = Some(file_with(b"0123456789"));
    let mut mem = vec![0u8; 32];
    assert_eq!(wasi_fd_seek(&mut t, &mut mem, 4, 3, 0, 8), 0);
    assert_eq!(&mem[8..16], &3u64.to_le_bytes());
    assert_eq!(wasi_fd_seek(&mut t, &mut mem, 4, 2, 1, 0), 0);
    assert_eq!(wasi_fd_tell(&t, &mut mem, 4, 0), 0);
    assert_eq!(&mem[0..8], &5u64.to_le_bytes());
    assert_eq!(wasi_fd_seek(&mut t, &mut mem, 4, -1, 2, 0), 0);
    assert_eq!(wasi_fd_tell(&t, &mut mem, 4, 0), 0);
    assert_eq!(&mem[0..8], &9u64.to_le_bytes());
    assert_eq!(wasi_fd_seek(&mut t, &mut mem, 4, 11, 0, 0), 28);
    assert_eq!(wasi_fd_seek(&mut t, &mut mem, 4, 0, 7, 0), 28);
    assert_eq!(wasi_fd_seek(&mut t, &mut mem, 5, 0, 0, 0), 8);
    assert_eq!(wasi_fd_tell(&t, &mut mem, 4, 30), 21);
    assert_eq!(wasi_fd_tell(&t, &mut mem, 6, 0), 8);
}

#[test]
fn read_through_iovecs() {
    let mut t = FDTable::new("/r".to_string());
    t.entries[0] = Some(file_with(b"hello"));
    let mut mem = vec![0u8; 64];
    // two iovecs: 3 bytes at 32, 10 bytes at 40
    mem[0..4].copy_from_slice(&32u32.to_le_bytes());
    mem[4..8].copy_from_slice(&3u32.to_le_bytes());
    mem[8..12].copy_from_slice(&40u32.to_le_bytes());
    mem[12..16].copy_from_slice(&10u32.to_le_bytes());
    let r = wasi_fd_read(&mut t, &mut mem, 0, 0, 2, 20);
    assert!(matches!(r, ReadOutcome::Done(0)));
    assert_eq!(&mem[32..35], b"hel");
    assert_eq!(&mem[40..42], b"lo");
    assert_eq!(&mem[20..24], &5u32.to_le_bytes());
    assert!(!t.has_pending_input(0));
    assert!(matches!(wasi_fd_read(&mut t, &mut mem, 0, 0, 2, 20), ReadOutcome::Block));
    assert!(matches!(wasi_fd_read(&mut t, &mut mem, 7, 0, 2, 20), ReadOutcome::Done(1)));
}

#[test]
fn read_with_bad_iovec_changes_nothing() {
    let mut t = FDTable::new("/r".to_string());
    t.entries[0] = Some(file_with(b"hello"));
    let mut mem = vec![0u8; 16];
    mem[0..4].copy_from_slice(&100u32.to_le_bytes());
    mem[4..8].copy_from_slice(&3u32.to_le_bytes());
    let before = mem.clone();
    assert!(matches!(wasi_fd_read(&mut t, &mut mem, 0, 0, 1, 8), ReadOutcome::Done(1)));
    assert_eq!(mem, before);
    assert!(t.has_pending_input(0));
}

#[test]
fn readdir_hands_out_listing() {
    let mut t = FDTable::new("/r".to_string());
    t.entries[4] = Some(FDEntry::File {
        buffer: listing_bytes(&vec!["a".to_string(), "bc".to_string()]),
        read_ptr: 0,
        is_directory: true,
        is_preopen: false,
        host_path: None,
    });
    let mut mem = vec![0u8; 32];
    assert_eq!(wasi_fd_readdir(&mut t, &mut mem, 4, 8, 3, 0), 0);
    assert_eq!(&mem[8..11], b"a\nb");
    assert_eq!(&mem[0..4], &3u32.to_le_bytes());
    assert_eq!(wasi_fd_readdir(&mut t, &mut mem, 4, 8, -1, 0), 0);
    assert_eq!(&mem[8..10], b"c\n");
    assert_eq!(&mem[0..4], &2u32.to_le_bytes());
    assert_eq!(wasi_fd_readdir(&mut t, &mut mem, 4, 8, 10, 0), 0);
    assert_eq!(&mem[0..4], &0u32.to_le_bytes());
}

#[test]
fn gather_for_write() {
    let mut mem = vec![0u8; 32];
    mem[0..4].copy_from_slice(&16u32.to_le_bytes());
    mem[4..8].copy_from_slice(&2u32.to_le_bytes());
    mem[8..12].copy_from_slice(&20u32.to_le_bytes());
    mem[12..16].copy_from_slice(&1u32.to_le_bytes());
    mem[16] = b'o';
    mem[17] = b'k';
    mem[20] = b'!';
    assert_eq!(gather_iovecs(&mem, 0, 2), Some(b"ok!".to_vec()));
    assert_eq!(gather_iovecs(&mem, 0, -4), Some(vec![]));
    assert_eq!(gather_iovecs(&mem, 28, 1), None);
}

#[test]
fn buffered_write_chunks() {
    let mut p = process();
    p.fd_table.entries[4] = Some(FDEntry::File {
        buffer: vec![],
        read_ptr: 0,
        is_directory: false,
        is_preopen: false,
        host_path: Some("/h/f".to_string()),
    });
    assert_eq!(p.write_target(4), Some("/h/f".to_string()));
    assert_eq!(p.write_target(3), None);
    let data = b"abcdef";
    let (o, step) = p.buffer_write_chunk(data, 0);
    assert_eq!(o, 4);
    assert!(matches!(step, WriteStep::Block));
    assert_eq!(p.write_buffer, b"abcd".to_vec());
    let (o2, step2) = p.buffer_write_chunk(data, o);
    assert_eq!(o2, 4);
    assert!(matches!(step2, WriteStep::Block));
    p.write_buffer.clear();
    let (o3, step3) = p.buffer_write_chunk(data, o2);
    assert_eq!(o3, 6);
    assert!(matches!(step3, WriteStep::Continue));
    p.block_for_write("/h/f".to_string());
    assert!(p.state == ProcessState::Blocked);
}

#[test]
fn disk_usage_limits() {
    let mut p = process();
    assert!(p.usage_add(600).is_ok());
    assert_eq!(p.usage_add(500), Err(28));
    assert_eq!(p.current_disk_usage, 1100);
    p.usage_sub(2000);
    assert_eq!(p.current_disk_usage, 0);
    p.usage_add(u64::MAX).ok();
    assert_eq!(p.current_disk_usage, u64::MAX);
}

#[test]
fn prestat_and_dir_name() {
    let t = FDTable::new("/r".to_string());
    let mut mem = vec![0u8; 16];
    assert_eq!(wasi_fd_prestat_get(&t, &mut mem, 3, 0), 0);
    assert_eq!(&mem[0..8], &[0, 0, 0, 0, 1, 0, 0, 0]);
    assert_eq!(wasi_fd_prestat_get(&t, &mut mem, 0, 0), 8);
    assert_eq!(wasi_fd_prestat_dir_name(&mut mem, 10, 1), 0);
    assert_eq!(mem[10], b'.');
    assert_eq!(wasi_fd_prestat_dir_name(&mut mem, 10, 0), 1);
    assert_eq!(wasi_fd_prestat_dir_name(&mut mem, 16, 4), 1);
}

#[test]
fn clocks_and_sync() {
    let t = FDTable::new("/r".to_string());
    let mut mem = vec![0u8; 16];
    assert_eq!(wasi_clock_res_get(&mut mem, 0), 0);
    assert_eq!(&mem[0..8], &1_000_000u64.to_le_bytes());
    assert_eq!(wasi_clock_time_get(77, &mut mem, 8), 0);
    assert_eq!(&mem[8..16], &77u64.to_le_bytes());
    assert_eq!(wasi_clock_time_get(77, &mut mem, 9), 1);
    assert_eq!(wasi_fd_sync(&t, 0), 0);
    assert_eq!(wasi_fd_sync(&t, 5), 8);
}

#[test]
fn close_descriptor() {
    let mut t = FDTable::new("/r".to_string());
    assert_eq!(wasi_fd_close(&mut t, 2), 0);
    assert!(t.entries[2].is_none());
    assert_eq!(wasi_fd_close(&mut t, 8), 8);
}

#[test]
fn args_buffers() {
    let args = vec!["ab".to_string(), "c".to_string()];
    let mut mem = vec![0u8; 32];
    assert_eq!(wasi_args_sizes_get(&args, &mut mem, 0, 4), 0);
    assert_eq!(&mem[0..4], &2u32.to_le_bytes());
    assert_eq!(&mem[4..8], &5u32.to_le_bytes());
    assert_eq!(wasi_args_get(&args, &mut mem, 8, 16), 0);
    assert_eq!(&mem[8..12], &16u32.to_le_bytes());
    assert_eq!(&mem[12..16], &19u32.to_le_bytes());
    assert_eq!(&mem[16..21], b"ab\0c\0");
}

#[test]
fn poll_sleeps_until_earliest() {
    let mut mem = vec![0u8; 256];
    // subscription 0: userdata 7, type 0, timeout 0 (one second)
    mem[0..8].copy_from_slice(&7u64.to_le_bytes());
    // subscription 1: userdata 8, type 0, timeout 500
    mem[48..56].copy_from_slice(&8u64.to_le_bytes());
    mem[72..80].copy_from_slice(&500u64.to_le_bytes());
    let (subs, earliest) = poll_subscriptions(&mem, 0, 2, 100).unwrap();
    assert_eq!(earliest, 600);
    assert_eq!(subs[0].wake_time, 1_000_000_100);
    assert_eq!(poll_events(&mut mem, &subs, 96, 200, 700), 0);
    assert_eq!(&mem[96..104], &8u64.to_le_bytes());
    assert_eq!(&mem[200..208], &1u64.to_le_bytes());
    assert!(poll_subscriptions(&mem, 200, 2, 0).is_none());
    assert_eq!(poll_events(&mut mem, &subs, 250, 0, 0), 1);
}

#[test]
fn sockets_open_send_close() {
    let mut p = process();
    let mut mem = vec![0u8; 64];
    assert_eq!(wasi_sock_open(&mut p, &mut mem, 3, 1, 0, 0), 1);
    assert_eq!(wasi_sock_open(&mut p, &mut mem, 1, 1, 0, 0), 0);
    assert_eq!(&mem[0..4], &4u32.to_le_bytes());
    assert_eq!(p.fd_table.socket_port(4), Some(1));
    mem[10..13].copy_from_slice(b"abc");
    assert_eq!(sock_send_request(&mut p, &mem, 4, 10, 3), Ok(3));
    assert!(matches!(&p.network_queue[0].operation,
        NetworkOperation::Send { src_port: 1, data } if data == &b"abc".to_vec()));
    assert_eq!(sock_send_request(&mut p, &mem, 0, 10, 3), Err(1));
    assert_eq!(sock_close_request(&mut p, 4), 0);
    assert!(matches!(&p.network_queue[1].operation, NetworkOperation::Close { src_port: 1 }));
    assert_eq!(sock_close_request(&mut p, 9), 1);
}

#[test]
fn socket_listen_and_accept() {
    let mut p = process();
    let mut mem = vec![0u8; 16];
    assert_eq!(wasi_sock_open(&mut p, &mut mem, 1, 1, 0, 0), 0);
    let port = sock_listen_request(&mut p, 4).unwrap();
    assert_eq!(port, 1);
    assert_eq!(sock_listen_finish(&mut p, 4, port), 1);
    // the consensus node confirms the listen
    p.apply_network_in(0, &[1, 1, 0, 0, 0]);
    assert_eq!(sock_listen_finish(&mut p, 4, port), 0);
    assert!(matches!(&p.fd_table.entries[4], Some(FDEntry::Socket { is_listener: true, .. })));
    let (src, new_fd, new_port) = sock_accept_request(&mut p, 4).unwrap();
    assert_eq!((src, new_fd, new_port), (1, 5, 2));
    assert_eq!(sock_accept_finish(&mut p, &mut mem, src, new_fd, 8), 11);
    assert!(p.fd_table.entries[5].is_none());
    assert_eq!(p.next_port, 1);
}

#[test]
fn socket_receive_and_connect() {
    let mut p = process();
    let mut mem = vec![0u8; 64];
    assert_eq!(wasi_sock_open(&mut p, &mut mem, 1, 1, 0, 0), 0);
    assert_eq!(wasi_sock_recv(&mut p, &mut mem, 4, 0, 8, 20, 24), 11);
    p.apply_network_in(1, b"hello");
    assert_eq!(wasi_sock_recv(&mut p, &mut mem, 4, 0, 3, 20, 24), 0);
    assert_eq!(&mem[0..3], b"hel");
    assert_eq!(&mem[20..24], &3u32.to_le_bytes());
    assert_eq!(wasi_sock_recv(&mut p, &mut mem, 4, 0, 3, 20, 24), 11);
    assert_eq!(wasi_sock_recv(&mut p, &mut mem, 0, 0, 3, 20, 24), 1);
    let mut addr = [0u8; 16];
    addr[2] = 0x1f;
    addr[3] = 0x90;
    addr[4..8].copy_from_slice(&[127, 0, 0, 1]);
    mem[32..48].copy_from_slice(&addr);
    assert_eq!(sock_connect_request(&mut p, &mem, 4, 32, 16), 0);
    match &p.network_queue[0].operation {
        NetworkOperation::Connect { dest_addr, dest_port, src_port } => {
            assert_eq!(dest_addr, "127.0.0.1");
            assert_eq!(*dest_port, 8080);
            assert_eq!(*src_port, 1);
        }
        _ => panic!("expected a connect"),
    }
    assert_eq!(sock_connect_request(&mut p, &mem, 4, 32, 8), 1);
    assert_eq!(sock_connect_request(&mut p, &mem, 4, 60, 16), 1);
}

#[test]
fn network_failure_disconnects() {
    let mut p = process();
    p.fd_table.entries[4] = Some(FDEntry::Socket { local_port: 9, connected: true, is_listener: false, buffer: vec![] });
    p.nat_table.set_waiting_recv(1, 9);
    p.apply_network_in(0, &[0, 9, 0, 0, 0]);
    assert!(matches!(&p.fd_table.entries[4], Some(FDEntry::Socket { connected: false, .. })));
    assert!(!p.nat_table.is_waiting_for_recv(1, 9));
    p.apply_network_in(0, &[2, 9, 0, 0, 0]);
    assert!(p.nat_table.is_waiting_for_accept(1, 9));
    assert!(network_still_blocked(&p.fd_table, &p.nat_table, 1));
}

#[test]
fn accept_confirmation_connects() {
    let mut p = process();
    p.fd_table.entries[5] = Some(FDEntry::Socket { local_port: 12, connected: false, is_listener: false, buffer: vec![] });
    p.apply_network_in(0, &[1, 3, 0, 12, 0]);
    assert!(matches!(&p.fd_table.entries[5], Some(FDEntry::Socket { connected: true, .. })));
    assert!(p.nat_table.has_port_mapping(1, 12));
    assert!(!p.nat_table.has_port_mapping(1, 3));
}

#[test]
fn guest_paths() {
    let mut mem = vec![0u8; 32];
    mem[0..10].copy_from_slice(b" //a/b.txt");
    assert_eq!(read_guest_path(&mem, 0, 10, true, 1, 1), Ok("a/b.txt".to_string()));
    assert_eq!(read_guest_path(&mem, 0, 10, false, 1, 1), Ok(" //a/b.txt".to_string()));
    mem[20] = 0xff;
    assert_eq!(read_guest_path(&mem, 20, 1, false, 21, 28), Err(28));
    assert_eq!(read_guest_path(&mem, 30, 5, false, 21, 28), Err(21));
}

#[test]
fn filestat_and_open() {
    let mut t = FDTable::new("/r".to_string());
    t.entries[4] = Some(file_with(b"xyz"));
    assert!(matches!(filestat_source(&t, 4), Some((FileSize::Known(3), 4))));
    assert!(matches!(filestat_source(&t, 3), Some((FileSize::FromHost(_), 3))));
    assert!(matches!(filestat_source(&t, 0), Some((FileSize::Known(0), 4))));
    assert!(filestat_source(&t, 6).is_none());
    let mut mem = vec![0u8; 80];
    assert_eq!(write_filestat(&mut mem, 0, 3, 4), 0);
    assert_eq!(mem[16], 4);
    assert_eq!(&mem[24..32], &1u64.to_le_bytes());
    assert_eq!(&mem[32..40], &3u64.to_le_bytes());
    assert_eq!(write_filestat(&mut mem, 20, 3, 4), 21);
    assert_eq!(install_opened(&mut t, &mut mem, file_with(b""), 0), 0);
    assert_eq!(&mem[0..4], &5u32.to_le_bytes());
    assert_eq!(io_err_to_wasi_errno(&IoErrorKind::NotFound), 2);
    assert_eq!(io_err_to_wasi_errno(&IoErrorKind::PermissionDenied), 13);
    assert_eq!(io_err_to_wasi_errno(&IoErrorKind::AlreadyExists), 20);
    assert_eq!(io_err_to_wasi_errno(&IoErrorKind::Other), 1);
    assert_eq!(open_flags(1), (true, false));
    assert_eq!(open_flags(2), (false, true));
    assert!(needs_io_wait(1_000_001));
    assert!(!needs_io_wait(1_000_000));
}

#[test]
fn sandbox_names() {
    assert_eq!(sandbox_candidate(12), "wasi_sandbox_12");
    assert_eq!(process_root_path(3), "/tmp/wasm_sandbox/pid_3");
}

#[test]
fn scheduler_queues() {
    let mut s: Scheduler<u32> = Scheduler::new(vec![1, 2]);
    assert!(s.should_run());
    assert_eq!(s.next_ready(), Some(1));
    assert_eq!(s.place(1, ProcessState::Blocked), None);
    assert_eq!(s.place(7, ProcessState::Finished), Some(7));
    assert_eq!(s.take_blocked(), vec![1]);
    s.record_input(false);
    assert_eq!(s.next_ready(), Some(2));
    assert!(s.done());
}

#[test]
fn block_reasons() {
    let mut p = process();
    p.state = ProcessState::Running;
    p.block_for(BlockReason::StdinRead);
    assert!(p.state == ProcessState::Blocked);
    p.state = ProcessState::Running;
    p.yield_cpu();
    assert!(p.state == ProcessState::Ready);
    p.block_until(50);
    assert!(matches!(p.block_reason, Some(BlockReason::Timeout { resume_after: 50 })));
    p.finish();
    assert!(p.state == ProcessState::Finished);
}

#[test]
fn pipe_clock_record_read_back() {
    let mut data = encode_record(0, 0, b"clock:18446744073709551615");
    data.extend(encode_record(2, 0, b"after"));
    let acts = decode_pipe_batch(&data);
    assert_eq!(acts.len(), 1);
    assert!(matches!(&acts[0], RuntimeAction::AdvanceClock(d) if *d == u64::MAX));
}

#[test]
fn pipe_message_record_goes_to_fd_zero() {
    let mut data = encode_record(3, 7, b"msg:hello");
    data.extend(encode_record(3, 7, b"  plain text "));
    let acts = decode_pipe_batch(&data);
    assert_eq!(acts.len(), 2);
    assert!(matches!(&acts[0], RuntimeAction::Input { pid: 7, fd: 0, body } if body == &b"hello".to_vec()));
    assert!(matches!(&acts[1], RuntimeAction::Input { pid: 7, fd: 0, body } if body == &b"plain text".to_vec()));
    let mut t = FDTable::new("/r".to_string());
    if let RuntimeAction::Input { fd, body, .. } = &acts[0] {
        assert!(t.append_input(*fd, body));
    }
    match &t.entries[0] {
        Some(FDEntry::File { buffer, .. }) => assert_eq!(buffer, &b"hello\n".to_vec()),
        _ => panic!("expected fd 0 to be a file"),
    }
}

#[test]
fn file_message_record_goes_to_fd_zero() {
    let mut data = encode_record(3, 2, b"msg: hi ");
    data.extend(encode_record(0, 0, b"clock:1"));
    let fb = decode_file_records(&data);
    assert_eq!(fb.actions.len(), 2);
    assert!(matches!(&fb.actions[0], RuntimeAction::Input { pid: 2, fd: 0, body } if body == &b"hi".to_vec()));
}

#[test]
fn over_quota_kills_process() {
    let mut p = ProcessData::new(1, "/r".to_string(), Vec::new(), 10, 64);
    p.state = ProcessState::Running;
    assert!(p.usage_add(4).is_ok());
    assert!(p.state == ProcessState::Running);
    assert_eq!(p.usage_add(7), Err(28));
    assert!(p.state == ProcessState::Finished);
    assert_eq!(p.current_disk_usage, 11);
}

#[test]
fn sandbox_rule() {
    assert_eq!(sandbox_verdict("/a", &Resolved::Target("/a/b".to_string()), "/a/../x", "/a"), Ok(()));
    assert_eq!(sandbox_verdict("/a", &Resolved::Target("/ab".to_string()), "/a/../ab", "/a"), Err(13));
    assert_eq!(sandbox_verdict("/a", &Resolved::Parent("/a".to_string()), "/a/new", "/a"), Ok(()));
    assert_eq!(sandbox_verdict("/a", &Resolved::Parent("/etc".to_string()), "/a/../etc/new", "/a"), Err(13));
    assert_eq!(sandbox_verdict("/a", &Resolved::Neither, "/a/x/y", "/a"), Ok(()));
    assert_eq!(sandbox_verdict("/a", &Resolved::Neither, "/b/x", "/a"), Err(13));
    assert!(path_under_root("/a/b", "/"));
    assert!(path_under_root("/a", "/a"));
    assert!(!path_under_root("/", "/a"));
}

#[test]
fn outgoing_batches_numbered_in_order() {
    let mut numbers = IdCounter::starting_at(1);
    let reqs = vec![(3u64, vec![1u8, 2])];
    let a = outgoing_batch(&mut numbers, &reqs);
    let b = outgoing_batch(&mut numbers, &Vec::new());
    assert_eq!((a.number, b.number), (1, 2));
    assert!(a.direction == BatchDirection::Outgoing);
    assert_eq!(a.data, encode_network_outs(&reqs));
    assert!(b.data.is_empty());
}
