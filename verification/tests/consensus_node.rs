use replicode::clients::format_kv_command;
use replicode::batch::{batches_since, encode_batch, Batch, BatchDirection};
use replicode::clock::{get_next_pid, pid_counter, GlobalClock};
use replicode::commands::{parse_command, Command, NetworkOperation, ParsedCommand};
use replicode::decimal::decimal_bytes;
use replicode::nat_table::{encode_status, incoming_records, network_response, network_status, NatTable};
use replicode::node::{BatchSender, RuntimeManager};
use replicode::record::{
    encode_network_outs, encode_record, parse_network_outs, parse_records, write_record, RecordError,
};

#[test]
fn parse_clock_command() {
    match parse_command("clock 5000") {
        Some(ParsedCommand::Clock(d)) => assert_eq!(d, 5000),
        _ => panic!("expected a clock command"),
    }
}

#[test]
fn parse_clock_without_number_is_zero() {
    match parse_command("  CLOCK abc ") {
        Some(ParsedCommand::Clock(d)) => assert_eq!(d, 0),
        _ => panic!("expected a clock command"),
    }
}

#[test]
fn parse_clock_missing_operand() {
    assert!(parse_command("clock").is_none());
}

#[test]
fn parse_exit_and_blank_lines() {
    assert!(parse_command("exit").is_none());
    assert!(parse_command("  ExIt \n").is_none());
    assert!(parse_command("   ").is_none());
    assert!(parse_command("").is_none());
}

#[test]
fn parse_unknown_command() {
    assert!(parse_command("put 1 ls").is_none());
    assert!(parse_command("launch x").is_none());
}

#[test]
fn parse_msg_joins_words() {
    match parse_command("msg 7   hello   big  world") {
        Some(ParsedCommand::Msg(pid, bytes)) => {
            assert_eq!(pid, 7);
            assert_eq!(bytes, b"hello big world".to_vec());
        }
        _ => panic!("expected a message"),
    }
}

#[test]
fn parse_msg_bad_pid_is_zero() {
    match parse_command("MSG x hi") {
        Some(ParsedCommand::Msg(pid, bytes)) => {
            assert_eq!(pid, 0);
            assert_eq!(bytes, b"hi".to_vec());
        }
        _ => panic!("expected a message"),
    }
    assert!(parse_command("msg 3").is_none());
}

#[test]
fn parse_command_word_with_kelvin_sign() {
    // U+212A lowercases to 'k', so this is "clock".
    match parse_command("cloc\u{212A} 9") {
        Some(ParsedCommand::Clock(d)) => assert_eq!(d, 9),
        _ => panic!("expected a clock command"),
    }
}

#[test]
fn parse_init_with_dir_and_args() {
    match parse_command("init prog.wasm -d data -a one two") {
        Some(ParsedCommand::Init { wasm_path, dir_path, args }) => {
            assert_eq!(wasm_path, "prog.wasm");
            assert_eq!(dir_path, Some("data".to_string()));
            assert_eq!(args, vec!["one".to_string(), "two".to_string()]);
        }
        _ => panic!("expected an init command"),
    }
}

#[test]
fn parse_init_plain() {
    match parse_command("Init hello.wasm") {
        Some(ParsedCommand::Init { wasm_path, dir_path, args }) => {
            assert_eq!(wasm_path, "hello.wasm");
            assert!(dir_path.is_none());
            assert!(args.is_empty());
        }
        _ => panic!("expected an init command"),
    }
}

#[test]
fn parse_init_errors() {
    assert!(parse_command("init").is_none());
    assert!(parse_command("init a.wasm -d").is_none());
    assert!(parse_command("init a.wasm -a").is_none());
    assert!(parse_command("init a.wasm -x y").is_none());
}

#[test]
fn write_clock_record_layout() {
    let r = write_record(&Command::Clock(42)).ok().unwrap();
    let mut expected = vec![0u8];
    expected.extend_from_slice(&0u64.to_le_bytes());
    expected.extend_from_slice(&8u16.to_le_bytes());
    expected.extend_from_slice(b"clock:42");
    assert_eq!(r, expected);
}

#[test]
fn write_init_record_with_dir() {
    let cmd = Command::Init { wasm_bytes: vec![1, 2, 3], dir_path: Some("d".to_string()), args: vec![] };
    let r = write_record(&cmd).ok().unwrap();
    assert_eq!(r[0], 2);
    assert_eq!(&r[1..9], &u64::MAX.to_le_bytes());
    assert_eq!(&r[9..11], &9u16.to_le_bytes());
    assert_eq!(&r[11..], b"dir:d\0\x01\x02\x03");
}

#[test]
fn write_network_in_record() {
    let r = write_record(&Command::NetworkIn(5, 0x1234, vec![9])).ok().unwrap();
    assert_eq!(r[0], 5);
    assert_eq!(&r[1..9], &5u64.to_le_bytes());
    assert_eq!(&r[9..11], &3u16.to_le_bytes());
    assert_eq!(&r[11..], &[0x34, 0x12, 9]);
}

#[test]
fn write_record_errors() {
    let out = Command::NetworkOut(1, NetworkOperation::Close { src_port: 3 });
    assert!(matches!(write_record(&out), Err(RecordError::NotARecordCommand)));
    let big = Command::FDMsg(1, vec![0u8; 70000]);
    assert!(matches!(write_record(&big), Err(RecordError::PayloadTooLong)));
}

#[test]
fn records_read_back() {
    let mut bytes = encode_record(1, 9, b"abc");
    bytes.extend(encode_record(0, 0, b"clock:1"));
    bytes.extend_from_slice(&[4, 1, 2]); // cut short
    let rs = parse_records(&bytes);
    assert_eq!(rs.len(), 2);
    assert_eq!(rs[0].msg_type, 1);
    assert_eq!(rs[0].process_id, 9);
    assert_eq!(rs[0].payload, b"abc".to_vec());
    assert_eq!(rs[1].payload, b"clock:1".to_vec());
}

#[test]
fn network_outs_read_back() {
    let ms = vec![(3u64, vec![1u8, 2]), (4u64, vec![])];
    let bytes = encode_network_outs(&ms);
    assert_eq!(bytes[0], 5);
    let back = parse_network_outs(&bytes);
    assert_eq!(back, ms);
}

#[test]
fn batch_history_read_back() {
    let a = Batch { number: 1, direction: BatchDirection::Incoming, data: vec![1, 2] };
    let b = Batch { number: 2, direction: BatchDirection::Outgoing, data: vec![] };
    let mut file = encode_batch(&a);
    file.extend(encode_batch(&b));
    let all = batches_since(&file, 0);
    assert_eq!(all.len(), 2);
    assert_eq!(all[0].data, vec![1, 2]);
    assert!(all[1].direction == BatchDirection::Outgoing);
    let later = batches_since(&file, 1);
    assert_eq!(later.len(), 1);
    assert_eq!(later[0].number, 2);
}

#[test]
fn decimal_bytes_of_numbers() {
    assert_eq!(decimal_bytes(0), b"0".to_vec());
    assert_eq!(decimal_bytes(1234567890), b"1234567890".to_vec());
    assert_eq!(decimal_bytes(u64::MAX), u64::MAX.to_string().into_bytes());
}

#[test]
fn clock_increments_wrap() {
    let mut c = GlobalClock::new();
    c.increment(5);
    assert_eq!(c.now(), 5);
    c.increment(u64::MAX);
    assert_eq!(c.now(), 4);
}

#[test]
fn pids_count_up_from_one() {
    let mut pids = pid_counter();
    assert_eq!(get_next_pid(&mut pids), 1);
    assert_eq!(get_next_pid(&mut pids), 2);
}

#[test]
fn network_status_codes() {
    assert_eq!(network_status(Some(true), false), 1);
    assert_eq!(network_status(Some(true), true), 2);
    assert_eq!(network_status(Some(false), false), 0);
    assert_eq!(network_status(None, true), 0);
    assert_eq!(encode_status(1, 0x0102, 0x0304), vec![1, 2, 1, 4, 3]);
}

#[test]
fn network_response_for_accept() {
    let op = NetworkOperation::Accept { src_port: 80, new_port: 81 };
    match network_response(7, &op, 1) {
        Command::NetworkIn(pid, port, data) => {
            assert_eq!(pid, 7);
            assert_eq!(port, 0);
            assert_eq!(data, vec![1, 80, 0, 81, 0]);
        }
        _ => panic!("expected network input"),
    }
}

#[test]
fn incoming_records_for_connection_and_data() {
    let msgs = vec![(1u64, 80u16, vec![], true), (1u64, 81u16, b"hi".to_vec(), false)];
    let bytes = incoming_records(&msgs);
    let rs = parse_records(&bytes);
    assert_eq!(rs.len(), 3);
    assert_eq!(rs[0].payload, vec![0, 0, 1, 80, 0, 81, 0]);
    assert_eq!(rs[1].payload, vec![81, 0, b'h', b'i']);
    assert_eq!(rs[2].payload, vec![0, 0, 1, 81, 0, 0, 0]);
}

#[test]
fn nat_waits_and_mappings() {
    let mut nat = NatTable::new();
    assert!(!nat.is_waiting_for_accept(1, 80));
    nat.set_waiting_accept(1, 80, 81);
    assert!(nat.is_waiting_for_accept(1, 80));
    assert_eq!(nat.peek_waiting_port(1, 80), Some(81));
    nat.clear_waiting_accept(1, 80);
    assert_eq!(nat.get_waiting_port(1, 80), None);
    nat.set_waiting_recv(1, 81);
    assert!(nat.is_waiting_for_recv(1, 81));
    nat.clear_waiting_recv(1, 81);
    assert!(!nat.is_waiting_for_recv(1, 81));
    assert!(!nat.has_port_mapping(2, 5));
    nat.add_port_mapping(2, 5);
    assert!(nat.has_port_mapping(2, 5));
}

#[test]
fn batch_sender_closes_batches_with_clock() {
    let mut s = BatchSender::new();
    let rec = encode_record(1, 3, b"x");
    s.queue(&rec);
    let b = s.seal_batch();
    assert_eq!(b.number, 1);
    assert!(b.direction == BatchDirection::Incoming);
    let rs = parse_records(&b.data);
    assert_eq!(rs.len(), 2);
    assert_eq!(rs[1].msg_type, 0);
    assert_eq!(rs[1].payload, b"clock:10000000000".to_vec());
    let b2 = s.seal_batch();
    assert_eq!(b2.number, 2);
    assert_eq!(parse_records(&b2.data).len(), 1);
}

#[test]
fn runtime_manager_bookkeeping() {
    let mut m = RuntimeManager::new();
    let a = m.register();
    let b = m.register();
    assert_eq!((a, b), (0, 1));
    let mut t = m.broadcast_targets(1);
    t.sort();
    assert_eq!(t, vec![0, 1]);
    m.mark_sent(a, 3);
    assert_eq!(m.broadcast_targets(2), vec![1]);
    assert!(m.handle_outgoing_batch(b, 2));
    assert!(!m.handle_outgoing_batch(b, 2));
    assert!(!m.handle_outgoing_batch(9, 5));
    assert!(m.send_session_file(a, 7));
    assert!(!m.send_session_file(9, 7));
    m.remove(a);
    assert_eq!(m.runtime_ids(), vec![1]);
}

#[test]
fn nat_listener_without_pending_accepts() {
    let mut nat = NatTable::new();
    nat.listen_bound(3, 8080, 10001);
    assert!(nat.has_listener(3, 8080));
    assert!(!nat.has_pending_accept(3, 8080));
    assert_eq!(nat.process_pending_accept(3, 8080), None);
    nat.clear_pending_accept(3, 8080);
    assert!(nat.has_listener(3, 8080));
    assert_eq!(nat.process_pending_accept(4, 1), None);
}

#[test]
fn kv_commands_get_capital_keywords() {
    assert_eq!(format_kv_command("set a 1"), "SET a 1");
    assert_eq!(format_kv_command("Set key some value"), "SET key some value");
    assert_eq!(format_kv_command("get a"), "GET a");
    assert_eq!(format_kv_command("dEl a"), "DEL a");
}

#[test]
fn kv_commands_left_as_typed() {
    assert_eq!(format_kv_command("set a"), "set a");
    assert_eq!(format_kv_command("quit"), "quit");
    assert_eq!(format_kv_command("getx a"), "getx a");
    assert_eq!(format_kv_command("QUIT"), "QUIT");
}

#[test]
fn parse_ftp_command() {
    match parse_command("FTP 3 LIST   /docs") {
        Some(ParsedCommand::Ftp(pid, text)) => {
            assert_eq!(pid, 3);
            assert_eq!(text, "LIST /docs");
        }
        _ => panic!("expected an ftp command"),
    }
    assert!(parse_command("ftp 3").is_none());
}

#[test]
fn write_ftp_record() {
    let r = write_record(&Command::Ftp(6, "GET a.txt".to_string())).ok().unwrap();
    assert_eq!(r[0], 4);
    assert_eq!(&r[1..9], &6u64.to_le_bytes());
    assert_eq!(&r[9..11], &9u16.to_le_bytes());
    assert_eq!(&r[11..], b"GET a.txt");
}

#[test]
fn incoming_records_are_network_input() {
    let msgs = vec![(2u64, 90u16, b"x".to_vec(), false)];
    let rs = parse_records(&incoming_records(&msgs));
    assert!(rs.iter().all(|r| r.msg_type == 5));
}
