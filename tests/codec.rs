use redis_starter_rust::command::{
    build_set_params, to_command, Command, Decoded, Rejection, SetParams,
};
use redis_starter_rust::decimal::format_u64;
use redis_starter_rust::frame::{parse_blob_header, parse_frame, line_end, BlobHeader, Frame, FrameError};
use redis_starter_rust::resp::{encode_blob, Array, BaseError, BulkString, RespInteger, SimpleString};
use redis_starter_rust::words::{is_word, Word};

fn decode(bytes: &[u8]) -> (Command, usize) {
    match to_command(bytes, false) {
        Ok(Decoded::Request(r, n)) => (r.command, n),
        _ => panic!("expected a request"),
    }
}

#[test]
fn encodes_simple_string() {
    let s = SimpleString { value: b"PONG".to_vec() };
    assert_eq!(s.encode(), b"+PONG\r\n".to_vec());
}

#[test]
fn encodes_error_with_line_end() {
    let e = BaseError { message: b"ERR boom".to_vec() };
    assert_eq!(e.encode(), b"-ERR boom\r\n".to_vec());
}

#[test]
fn encodes_integers() {
    assert_eq!(RespInteger { value: 42 }.encode(), b":42\r\n".to_vec());
    assert_eq!(RespInteger { value: 0 }.encode(), b":0\r\n".to_vec());
    assert_eq!(RespInteger { value: -7 }.encode(), b":-7\r\n".to_vec());
    assert_eq!(
        RespInteger { value: i64::MIN }.encode(),
        b":-9223372036854775808\r\n".to_vec()
    );
}

#[test]
fn encodes_bulk_strings() {
    assert_eq!(BulkString { payload: Some(b"hello".to_vec()) }.encode(), b"$5\r\nhello\r\n".to_vec());
    assert_eq!(BulkString { payload: Some(Vec::new()) }.encode(), b"$0\r\n\r\n".to_vec());
    assert_eq!(BulkString { payload: None }.encode(), b"$-1\r\n".to_vec());
}

#[test]
fn encodes_arrays() {
    let a = Array {
        payload: vec![
            BulkString { payload: Some(b"dir".to_vec()) },
            BulkString { payload: None },
        ],
    };
    assert_eq!(a.encode(), b"*2\r\n$3\r\ndir\r\n$-1\r\n".to_vec());
    assert_eq!(Array { payload: Vec::new() }.encode(), b"*0\r\n".to_vec());
}

#[test]
fn encodes_raw_blob_without_line_end() {
    assert_eq!(encode_blob(b"abc"), b"$3\r\nabc".to_vec());
}

#[test]
fn formats_decimals() {
    assert_eq!(format_u64(0), b"0".to_vec());
    assert_eq!(format_u64(1024), b"1024".to_vec());
    assert_eq!(format_u64(u64::MAX), b"18446744073709551615".to_vec());
}

#[test]
fn decodes_echo_and_reports_length() {
    let input = b"*2\r\n$4\r\nECHO\r\n$5\r\nhello\r\nextra";
    let (c, n) = decode(input);
    assert_eq!(n, input.len() - 5);
    match c {
        Command::Echo(x) => assert_eq!(x, b"hello".to_vec()),
        _ => panic!("expected ECHO"),
    }
}

#[test]
fn command_names_ignore_case_and_values_keep_it() {
    let (c, _) = decode(b"*3\r\n$3\r\nsEt\r\n$3\r\nKey\r\n$5\r\nVaLuE\r\n");
    match c {
        Command::SetKey(p) => {
            assert_eq!(p.key, b"Key".to_vec());
            assert_eq!(p.value, b"VaLuE".to_vec());
            assert_eq!(p.px, None);
        }
        _ => panic!("expected SET"),
    }
}

#[test]
fn decodes_set_with_px_in_any_case() {
    let (c, _) = decode(b"*5\r\n$3\r\nSET\r\n$1\r\na\r\n$1\r\n1\r\n$2\r\npX\r\n$2\r\n10\r\n");
    match c {
        Command::SetKey(p) => assert_eq!(p.px, Some(10)),
        _ => panic!("expected SET"),
    }
}

#[test]
fn payloads_are_opaque_bytes() {
    let (c, _) = decode(b"*2\r\n$3\r\nGET\r\n$4\r\n\xff\r\n\x00\r\n");
    match c {
        Command::Get(k) => assert_eq!(k, vec![0xff, 13, 10, 0]),
        _ => panic!("expected GET"),
    }
}

#[test]
fn unknown_command_keeps_its_name() {
    let (c, _) = decode(b"*1\r\n$5\r\nHELLO\r\n");
    match c {
        Command::Unknown(n) => assert_eq!(n, b"HELLO".to_vec()),
        _ => panic!("expected an unknown command"),
    }
}

#[test]
fn set_rejects_unknown_option() {
    match to_command(b"*5\r\n$3\r\nSET\r\n$1\r\na\r\n$1\r\n1\r\n$2\r\nEX\r\n$2\r\n10\r\n", false) {
        Ok(Decoded::Rejected(e, name, _)) => {
            assert_eq!(e, Rejection::Syntax);
            assert_eq!(name, b"SET".to_vec());
        }
        _ => panic!("expected a rejection"),
    }
}

#[test]
fn set_rejects_non_numeric_px() {
    match to_command(b"*5\r\n$3\r\nSET\r\n$1\r\na\r\n$1\r\n1\r\n$2\r\nPX\r\n$2\r\n1x\r\n", false) {
        Ok(Decoded::Rejected(e, _, _)) => assert_eq!(e, Rejection::NotAnInteger),
        _ => panic!("expected a rejection"),
    }
}

#[test]
fn get_without_key_is_wrong_arity() {
    match to_command(b"*1\r\n$3\r\nGET\r\n", false) {
        Ok(Decoded::Rejected(e, _, n)) => {
            assert_eq!(e, Rejection::WrongArity);
            assert_eq!(n, 13);
        }
        _ => panic!("expected a rejection"),
    }
}

#[test]
fn build_set_params_takes_last_px() {
    let args = vec![
        b"SET".to_vec(),
        b"k".to_vec(),
        b"v".to_vec(),
        b"px".to_vec(),
        b"5".to_vec(),
        b"PX".to_vec(),
        b"7".to_vec(),
    ];
    let p: SetParams = match build_set_params(&args) {
        Ok(p) => p,
        Err(_) => panic!("expected parameters"),
    };
    assert_eq!(p.key, b"k".to_vec());
    assert_eq!(p.value, b"v".to_vec());
    assert_eq!(p.px, Some(7));
    let short = vec![b"SET".to_vec(), b"k".to_vec()];
    assert!(matches!(build_set_params(&short), Err(Rejection::WrongArity)));
    assert!(matches!(build_set_params(&Vec::new()), Err(Rejection::WrongArity)));
    let odd = vec![b"SET".to_vec(), b"k".to_vec(), b"v".to_vec(), b"PX".to_vec()];
    assert!(matches!(build_set_params(&odd), Err(Rejection::Syntax)));
}

#[test]
fn wait_parses_both_numbers() {
    let (c, _) = decode(b"*3\r\n$4\r\nWAIT\r\n$1\r\n3\r\n$3\r\n500\r\n");
    assert!(matches!(c, Command::Wait(3, 500)));
    match to_command(b"*3\r\n$4\r\nWAIT\r\n$1\r\n3\r\n$10\r\n4294967296\r\n", false) {
        Ok(Decoded::Rejected(e, _, _)) => assert_eq!(e, Rejection::NotAnInteger),
        _ => panic!("expected a rejection"),
    }
}

#[test]
fn zero_elements_is_malformed() {
    assert!(matches!(to_command(b"*0\r\n", false), Err(FrameError::BadLength)));
}

#[test]
fn non_numeric_header_is_malformed() {
    assert!(matches!(to_command(b"*x\r\n", false), Err(FrameError::BadHeader)));
    assert!(matches!(to_command(b"+PING\r\n", false), Err(FrameError::BadHeader)));
    assert!(matches!(to_command(b"*1\r\n#4\r\nPING\r\n", false), Err(FrameError::BadHeader)));
}

#[test]
fn payload_length_mismatch_is_malformed() {
    assert!(matches!(
        to_command(b"*1\r\n$3\r\nPING\r\n", false),
        Err(FrameError::LengthMismatch)
    ));
}

#[test]
fn too_many_elements_is_malformed() {
    assert!(matches!(to_command(b"*1025\r\n", false), Err(FrameError::BadLength)));
}

#[test]
fn partial_frame_needs_more_or_fails_at_eof() {
    let partial = b"*2\r\n$4\r\nECHO\r\n$5\r\nhel";
    assert!(matches!(to_command(partial, false), Ok(Decoded::Incomplete)));
    assert!(matches!(to_command(partial, true), Err(FrameError::PrematureEof)));
    assert!(matches!(to_command(b"", true), Ok(Decoded::Closed)));
    assert!(matches!(to_command(b"", false), Ok(Decoded::Incomplete)));
}

#[test]
fn parse_frame_returns_elements() {
    match parse_frame(b"*2\r\n$1\r\na\r\n$0\r\n\r\n") {
        Frame::Complete(parts, n) => {
            assert_eq!(parts, vec![b"a".to_vec(), Vec::new()]);
            assert_eq!(n, 17);
        }
        _ => panic!("expected a frame"),
    }
}

#[test]
fn request_round_trips_through_its_frame() {
    let commands = vec![
        Command::Ping,
        Command::Save,
        Command::Echo(b"hi there".to_vec()),
        Command::Get(b"k".to_vec()),
        Command::Keys(b"*".to_vec()),
        Command::Info(b"replication".to_vec()),
        Command::SetKey(SetParams { key: b"k".to_vec(), value: b"v".to_vec(), px: None }),
        Command::SetKey(SetParams { key: b"k".to_vec(), value: b"\r\n".to_vec(), px: Some(4294967295) }),
        Command::Config(b"dir".to_vec()),
        Command::Wait(0, 1000),
        Command::ReplConf(b"GETACK".to_vec(), b"*".to_vec()),
        Command::PSync(b"?".to_vec(), b"-1".to_vec()),
    ];
    for c in commands {
        let bytes = c.encode();
        let (back, n) = decode(&bytes);
        assert_eq!(n, bytes.len());
        assert_eq!(back.encode(), bytes);
        assert_eq!(std::mem::discriminant(&back), std::mem::discriminant(&c));
    }
}

#[test]
fn set_is_sent_in_capitals_with_px() {
    let c = Command::SetKey(SetParams { key: b"a".to_vec(), value: b"1".to_vec(), px: Some(100) });
    assert_eq!(
        c.encode(),
        b"*5\r\n$3\r\nSET\r\n$1\r\na\r\n$1\r\n1\r\n$2\r\nPX\r\n$3\r\n100\r\n".to_vec()
    );
}

#[test]
fn words_match_in_any_case() {
    assert!(is_word(b"rEpLcOnF", Word::ReplConf));
    assert!(!is_word(b"replconfx", Word::ReplConf));
}

#[test]
fn blob_header_and_lines() {
    assert!(matches!(parse_blob_header(b"$88\r\nREDIS"), BlobHeader::Complete(88, 5)));
    assert!(matches!(parse_blob_header(b"$88"), BlobHeader::Incomplete));
    assert!(matches!(parse_blob_header(b"+OK\r\n"), BlobHeader::Malformed));
    assert_eq!(line_end(b"+OK\r\n$3"), Some(5));
    assert_eq!(line_end(b"+OK\r"), None);
}
