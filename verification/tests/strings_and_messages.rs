use fproc::binary::StreamPeerBuffer;
use fproc::errors::CodecError;
use fproc::message::{
    decode_control_reply, decode_list_reply, decode_request, encode_ids, encode_list, encode_run,
    frame_message, read_frame,
};
use fproc::model::{ControlReply, ListReply, OpcodeTable, Request};

fn table() -> OpcodeTable {
    OpcodeTable { run: 0, stop: 1, restart: 2, delete: 3, list: 4 }
}

fn loaded(bytes: &[u8]) -> StreamPeerBuffer {
    let mut buf = StreamPeerBuffer::new();
    buf.set_data_array(bytes.to_vec());
    buf
}

#[test]
fn string_short_round_trips() {
    for s in ["", "a", "hello world", "h\u{e9}llo w\u{f6}rld \u{2713}", "\u{1F600}"] {
        let mut buf = StreamPeerBuffer::new();
        buf.put_utf8(String::from(s)).unwrap();
        let mut rd = StreamPeerBuffer::new();
        rd.set_data_array(buf.into_data());
        assert_eq!(rd.get_utf8().unwrap(), s);
    }
}

#[test]
fn string_short_exact_bytes() {
    let mut buf = StreamPeerBuffer::new();
    buf.put_utf8(String::from("hi")).unwrap();
    assert_eq!(buf.into_data(), vec![0x00, 0x02, b'h', b'i']);
}

#[test]
fn string_short_rejects_over_long() {
    let big = "x".repeat(65536);
    let mut buf = StreamPeerBuffer::new();
    assert_eq!(buf.put_utf8(big), Err(CodecError::Overflow));
    // nothing was written
    assert_eq!(buf.into_data(), Vec::<u8>::new());

    let exact = "x".repeat(65535);
    let mut buf = StreamPeerBuffer::new();
    buf.put_utf8(exact.clone()).unwrap();
    let mut rd = StreamPeerBuffer::new();
    rd.set_data_array(buf.into_data());
    assert_eq!(rd.get_utf8().unwrap(), exact);
}

#[test]
fn string_short_invalid_utf8() {
    let mut rd = loaded(&[0x00, 0x02, 0xFF, 0xFE]);
    assert_eq!(rd.get_utf8(), Err(CodecError::InvalidEncoding));
}

#[test]
fn string_short_truncated_payload_underflows() {
    let mut rd = loaded(&[0x00, 0x05, b'a', b'b']);
    assert_eq!(rd.get_utf8(), Err(CodecError::Underflow));
    let mut rd = loaded(&[0x00]);
    assert_eq!(rd.get_utf8(), Err(CodecError::Underflow));
}

#[test]
fn string_var_round_trips() {
    for s in ["", "a", "some longer text with spaces", "\u{2713}\u{2717}"] {
        let mut buf = StreamPeerBuffer::new();
        buf.put_utf8_var(String::from(s)).unwrap();
        let mut rd = StreamPeerBuffer::new();
        rd.set_data_array(buf.into_data());
        assert_eq!(rd.get_utf8_var().unwrap(), s);
    }
}

#[test]
fn string_var_exact_bytes() {
    let mut buf = StreamPeerBuffer::new();
    buf.put_utf8_var(String::from("hey")).unwrap();
    assert_eq!(buf.into_data(), vec![0x03, b'h', b'e', b'y']);
}

#[test]
fn run_request_scenario() {
    // command "echo hi", no explicit id, no environment entries, cwd "/tmp"
    let out = encode_run(
        table().run,
        String::from("echo hi"),
        None,
        &Vec::new(),
        String::from("/tmp"),
    )
    .unwrap();
    let mut expected = vec![table().run, 0x00, 0x07];
    expected.extend_from_slice(b"echo hi");
    expected.push(0x00);
    expected.extend_from_slice(&[0x00, 0x00, 0x00, 0x00]);
    expected.extend_from_slice(&[0x00, 0x04]);
    expected.extend_from_slice(b"/tmp");
    assert_eq!(out, expected);
}

#[test]
fn run_request_with_id_and_env() {
    let env = vec![(String::from("K"), String::from("V"))];
    let out = encode_run(
        table().run,
        String::from("sleep 1"),
        Some(7),
        &env,
        String::from("/"),
    )
    .unwrap();
    let mut expected = vec![table().run, 0x00, 0x07];
    expected.extend_from_slice(b"sleep 1");
    expected.extend_from_slice(&[0x01, 0x00, 0x00, 0x00, 0x07]);
    expected.extend_from_slice(&[0x00, 0x00, 0x00, 0x01]);
    expected.extend_from_slice(&[0x00, 0x01, b'K', 0x00, 0x01, b'V']);
    expected.extend_from_slice(&[0x00, 0x01, b'/']);
    assert_eq!(out, expected);
}

#[test]
fn run_request_rejects_over_long_command() {
    let r = encode_run(
        table().run,
        "x".repeat(70000),
        None,
        &Vec::new(),
        String::from("/"),
    );
    assert_eq!(r, Err(CodecError::Overflow));
    let env = vec![(String::from("K"), "y".repeat(70000))];
    let r = encode_run(table().run, String::from("ls"), None, &env, String::from("/"));
    assert_eq!(r, Err(CodecError::Overflow));
}

#[test]
fn ids_request_exact_bytes() {
    let out = encode_ids(table().stop, &vec![1, 0x01020304]);
    assert_eq!(out, vec![table().stop, 0, 0, 0, 1, 1, 2, 3, 4]);
}

#[test]
fn list_request_is_opcode_alone() {
    assert_eq!(encode_list(table().list), vec![table().list]);
}

#[test]
fn control_reply_success() {
    let r = decode_control_reply(vec![0]).unwrap();
    assert!(matches!(r, ControlReply::Success));
    // trailing bytes from a padded transport read are ignored
    let r = decode_control_reply(vec![0, 9, 9, 9]).unwrap();
    assert!(matches!(r, ControlReply::Success));
}

#[test]
fn failure_reply_carries_the_exact_message() {
    let msg = "process not found";
    let mut data = vec![1, 0x00, msg.len() as u8];
    data.extend_from_slice(msg.as_bytes());
    match decode_control_reply(data.clone()).unwrap() {
        ControlReply::Failure(m) => assert_eq!(m, msg),
        ControlReply::Success => panic!("expected a failure reply"),
    }
    match decode_list_reply(data).unwrap() {
        ListReply::Failure(m) => assert_eq!(m, msg),
        ListReply::Records(_) => panic!("expected a failure reply"),
    }
}

#[test]
fn control_reply_errors() {
    assert_eq!(decode_control_reply(vec![]), Err(CodecError::Underflow));
    assert_eq!(
        decode_control_reply(vec![1, 0x00, 0x05, b'a']),
        Err(CodecError::Underflow)
    );
    assert_eq!(
        decode_control_reply(vec![1, 0x00, 0x01, 0xFF]),
        Err(CodecError::InvalidEncoding)
    );
}

fn push_record(data: &mut Vec<u8>, id: u32, name: &str, pid: u32, running: bool) {
    data.extend_from_slice(&id.to_be_bytes());
    data.extend_from_slice(&(name.len() as u16).to_be_bytes());
    data.extend_from_slice(name.as_bytes());
    data.extend_from_slice(&pid.to_be_bytes());
    data.push(if running { 1 } else { 0 });
}

#[test]
fn list_reply_two_records_in_order() {
    let mut data = vec![0, 0, 0, 0, 2];
    push_record(&mut data, 1, "a", 100, true);
    push_record(&mut data, 2, "b", 0, false);
    match decode_list_reply(data).unwrap() {
        ListReply::Records(v) => {
            assert_eq!(v.len(), 2);
            assert_eq!((v[0].id, v[0].name.as_str(), v[0].pid, v[0].running), (1, "a", 100, true));
            assert_eq!((v[1].id, v[1].name.as_str(), v[1].pid, v[1].running), (2, "b", 0, false));
        }
        ListReply::Failure(_) => panic!("expected records"),
    }
}

#[test]
fn list_reply_zero_records_is_empty() {
    let data = vec![0, 0, 0, 0, 0];
    match decode_list_reply(data).unwrap() {
        ListReply::Records(v) => assert!(v.is_empty()),
        ListReply::Failure(_) => panic!("expected records"),
    }
}

#[test]
fn list_reply_truncated_record_underflows() {
    let mut data = vec![0, 0, 0, 0, 2];
    push_record(&mut data, 1, "a", 100, true);
    // the second announced record is missing
    assert_eq!(decode_list_reply(data), Err(CodecError::Underflow));
}

#[test]
fn request_round_trips_through_the_daemon_side_parse() {
    let env = vec![(String::from("HOME"), String::from("/root"))];
    let bytes = encode_run(
        table().run,
        String::from("echo hi"),
        Some(3),
        &env,
        String::from("/tmp"),
    )
    .unwrap();
    match decode_request(bytes, &table()).unwrap() {
        Request::Run { command, id, env, cwd } => {
            assert_eq!(command, "echo hi");
            assert_eq!(id, Some(3));
            assert_eq!(env, vec![(String::from("HOME"), String::from("/root"))]);
            assert_eq!(cwd, "/tmp");
        }
        _ => panic!("expected a RUN request"),
    }

    let bytes = encode_ids(table().stop, &vec![5, 6]);
    match decode_request(bytes, &table()).unwrap() {
        Request::Stop { ids } => assert_eq!(ids, vec![5, 6]),
        _ => panic!("expected a STOP request"),
    }

    let bytes = encode_ids(table().restart, &vec![8]);
    assert!(matches!(decode_request(bytes, &table()).unwrap(), Request::Restart { .. }));
    let bytes = encode_ids(table().delete, &vec![9]);
    assert!(matches!(decode_request(bytes, &table()).unwrap(), Request::Delete { .. }));
    let bytes = encode_list(table().list);
    assert!(matches!(decode_request(bytes, &table()).unwrap(), Request::List));
}

#[test]
fn frames_delimit_messages_exactly() {
    let first = frame_message(vec![1, 2, 3]).unwrap();
    let second = frame_message(vec![9]).unwrap();
    assert_eq!(first, vec![0, 0, 0, 3, 1, 2, 3]);
    let mut stream_bytes = first;
    stream_bytes.extend_from_slice(&second);
    let mut rd = loaded(&stream_bytes);
    assert_eq!(read_frame(&mut rd).unwrap(), vec![1, 2, 3]);
    assert_eq!(read_frame(&mut rd).unwrap(), vec![9]);
    assert_eq!(read_frame(&mut rd), Err(CodecError::Underflow));
}

#[test]
fn truncated_frame_underflows() {
    let mut rd = loaded(&[0, 0, 0, 5, 1, 2]);
    assert_eq!(read_frame(&mut rd), Err(CodecError::Underflow));
    // the failed read consumed nothing
    assert_eq!(rd.get_u32(), Ok(5));
}

#[test]
fn unknown_opcode_is_a_protocol_error() {
    assert_eq!(decode_request(vec![0xEE], &table()), Err(CodecError::Protocol));
    assert_eq!(decode_request(vec![], &table()), Err(CodecError::Underflow));
}

#[test]
fn id_list_with_trailing_fragment_underflows() {
    assert_eq!(
        decode_request(vec![table().stop, 0, 0, 0, 1, 9], &table()),
        Err(CodecError::Underflow)
    );
}
