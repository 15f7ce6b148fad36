use oh_my_kiwi::Value;
use oh_my_kiwi::reader::SliceReader;
use oh_my_kiwi::writer::MemWriter;
use oh_my_kiwi::engine::InMemoryEngine;
use oh_my_kiwi::error::ParseError;
use oh_my_kiwi::command::KiwiCommandParser;
use oh_my_kiwi::processor::KiwiCommandProcessor;
use oh_my_kiwi::response::KiwiResponseWriter;
use oh_my_kiwi::handler::KiwiErrorHandler;
use oh_my_kiwi::server::RESP3Server;
use oh_my_kiwi::server::SessionStep;
use oh_my_kiwi::server::session_step;
use oh_my_kiwi::response::Response;
use oh_my_kiwi::order::compare_values;
use oh_my_kiwi::command::parse_command_from_types;
use oh_my_kiwi::command::KiwiCommand;
use oh_my_kiwi::error::CommandError;

fn run_server(input: &[u8]) -> Vec<u8> {
    let parser = KiwiCommandParser::new(SliceReader::new(input));
    let processor = KiwiCommandProcessor::new(InMemoryEngine::new());
    let writer = KiwiResponseWriter::new(MemWriter::new());
    let mut server = RESP3Server::new(parser, processor, writer, KiwiErrorHandler::new());
    server.run();
    server.writer_ref().sink_ref().bytes().clone()
}

#[test]
fn scenario_ping() {
    assert_eq!(run_server(b"*1\r\n$4\r\nPING\r\n"), b"+PONG\r\n".to_vec());
}

#[test]
fn scenario_set_then_get() {
    let input = b"*3\r\n$3\r\nSET\r\n$3\r\nfoo\r\n$3\r\nbar\r\n*2\r\n$3\r\nGET\r\n$3\r\nfoo\r\n";
    assert_eq!(run_server(input), b"+OK\r\n$3\r\nbar\r\n".to_vec());
}

#[test]
fn scenario_get_missing() {
    let input = b"*2\r\n$3\r\nGET\r\n$7\r\nmissing\r\n";
    assert_eq!(run_server(input), b"_\r\n".to_vec());
}

#[test]
fn scenario_unknown_then_ping() {
    let input = b"*1\r\n$7\r\nUNKNOWN\r\n*1\r\n$4\r\nPING\r\n";
    assert_eq!(run_server(input), b"-Unsupported command\r\n+PONG\r\n".to_vec());
}

#[test]
fn scenario_partial_frame_then_close() {
    let mut engine = InMemoryEngine::new();
    let step = session_step(&mut engine, b"*1\r\n$4\r\nPIN", 0);
    assert!(matches!(step, SessionStep::NeedMore));
}

#[test]
fn scenario_array_value_round_trip() {
    let input = b"*3\r\n$3\r\nSET\r\n$1\r\nk\r\n*2\r\n:1\r\n:2\r\n*2\r\n$3\r\nGET\r\n$1\r\nk\r\n";
    assert_eq!(run_server(input), b"+OK\r\n*2\r\n:1\r\n:2\r\n".to_vec());
}

#[test]
fn scenario_case_insensitive_ping() {
    assert_eq!(run_server(b"*1\r\n$4\r\nPing\r\n"), b"+PONG\r\n".to_vec());
    assert_eq!(run_server(b"*1\r\n$4\r\nPING\r\n"), b"+PONG\r\n".to_vec());
    assert_eq!(run_server(b"*1\r\n$4\r\npInG\r\n"), b"+PONG\r\n".to_vec());
}

#[test]
fn scenario_command_probe() {
    let input = b"*2\r\n$7\r\nCOMMAND\r\n$4\r\ndocs\r\n";
    assert_eq!(run_server(input), b"+OK\r\n".to_vec());
}

#[test]
fn scenario_recovery_after_parse_error() {
    let input = b":abc\r\n*1\r\n$4\r\nPING\r\n";
    assert_eq!(run_server(input), b"-Expected number\r\n+PONG\r\n".to_vec());
}

#[test]
fn scenario_get_wrong_argument_count() {
    let input = b"*3\r\n$3\r\nGET\r\n$1\r\na\r\n$1\r\nb\r\n";
    assert_eq!(run_server(input), b"-Wrong number of arguments\r\n".to_vec());
}

#[test]
fn scenario_command_wrong_argument_type() {
    let input = b"*2\r\n$7\r\nCOMMAND\r\n:1\r\n";
    assert_eq!(run_server(input), b"-Wrong argument type\r\n".to_vec());
}

#[test]
fn scenario_non_array_request() {
    assert_eq!(run_server(b"+PING\r\n"), b"-Unsupported command\r\n".to_vec());
}

#[test]
fn session_step_reports_consumed_bytes() {
    let mut engine = InMemoryEngine::new();
    let buf = b"*1\r\n$4\r\nPING\r\n*1\r\n$4\r\nPING\r\n";
    match session_step(&mut engine, buf, 0) {
        SessionStep::Reply { reply, used } => {
            assert_eq!(reply, b"+PONG\r\n".to_vec());
            assert_eq!(used, 14);
        },
        _ => panic!("expected a reply"),
    }
    match session_step(&mut engine, buf, 14) {
        SessionStep::Reply { reply, used } => {
            assert_eq!(reply, b"+PONG\r\n".to_vec());
            assert_eq!(used, 14);
        },
        _ => panic!("expected a reply"),
    }
}

#[test]
fn session_step_stores_across_steps() {
    let mut engine = InMemoryEngine::new();
    let buf = b"*3\r\n$3\r\nSET\r\n$1\r\nk\r\n$2\r\nhi\r\n*2\r\n$3\r\nGET\r\n$1\r\nk\r\n";
    let first = match session_step(&mut engine, buf, 0) {
        SessionStep::Reply { reply, used } => {
            assert_eq!(reply, b"+OK\r\n".to_vec());
            used
        },
        _ => panic!("expected a reply"),
    };
    match session_step(&mut engine, buf, first) {
        SessionStep::Reply { reply, .. } => {
            assert_eq!(reply, b"$2\r\nhi\r\n".to_vec());
        },
        _ => panic!("expected a reply"),
    }
}

#[test]
fn decode_legacy_null_bulk() {
    let mut reader = SliceReader::new(b"$-1\r\n");
    assert_eq!(Value::from_bytes(&mut reader).unwrap(), Value::Null);
    assert_eq!(Value::Null.to_bytes(), b"_\r\n");
}

#[test]
fn decode_two_concatenated_frames() {
    let v1 = Value::Array(vec![Value::Integer(7), Value::SimpleString(b"ab".to_vec())]);
    let v2 = Value::BulkString(b"tail".to_vec());
    let mut bytes = v1.to_bytes();
    bytes.extend_from_slice(&v2.to_bytes());
    let mut reader = SliceReader::new(bytes.as_slice());
    assert_eq!(Value::from_bytes(&mut reader).unwrap(), v1);
    assert_eq!(Value::from_bytes(&mut reader).unwrap(), v2);
}

#[test]
fn encode_decode_round_trip() {
    let values = vec![
        Value::SimpleString(b"hello".to_vec()),
        Value::SimpleError(b"ERR no".to_vec()),
        Value::Integer(i64::MIN),
        Value::Integer(i64::MAX),
        Value::BulkString(b"with\r\nnewlines".to_vec()),
        Value::Null,
        Value::Boolean(true),
        Value::Double(b"-1.5e3".to_vec()),
        Value::BigNumber(b"-987654321098765432109876543210".to_vec()),
        Value::BulkError(b"oops".to_vec()),
        Value::Array(vec![Value::Integer(1), Value::Null]),
        Value::Mapping(vec![
            (Value::Integer(1), Value::Boolean(false)),
            (Value::Integer(2), Value::Null),
        ]),
        Value::SetOf(vec![Value::Integer(5), Value::Integer(5)]),
    ];
    for v in values {
        let bytes = v.to_bytes();
        let mut reader = SliceReader::new(bytes.as_slice());
        assert_eq!(Value::from_bytes(&mut reader).unwrap(), v);
    }
}

#[test]
fn decode_error_variants() {
    let cases: Vec<(&[u8], ParseError)> = vec![
        (b":abc\r\n", ParseError::ExpectedNumber),
        (b"$x\r\n", ParseError::ExpectedNumber),
        (b"+\xff\r\n", ParseError::WrongStringByteSequence),
        (b"#x\r\n", ParseError::ExpectedBool),
        (b"#\r\n", ParseError::ExpectedBool),
        (b",abc\r\n", ParseError::WrongFloatingPointFormat),
        (b"(abc\r\n", ParseError::WrongBigNumberFormat),
        (b"$3\r\nabcXY", ParseError::MissingSeparator),
        (b"?hello\r\n", ParseError::UnsupportedDataType(63)),
        (b":12", ParseError::ConnectionClosed),
        (b"", ParseError::ConnectionClosed),
    ];
    for (input, expected) in cases {
        let mut reader = SliceReader::new(input);
        assert_eq!(Value::from_bytes(&mut reader).unwrap_err(), expected);
    }
}

#[test]
fn decode_depth_limit() {
    let mut deep = Vec::new();
    for _ in 0..65 {
        deep.extend_from_slice(b"*1\r\n");
    }
    deep.extend_from_slice(b"_\r\n");
    let mut reader = SliceReader::new(deep.as_slice());
    assert_eq!(
        Value::from_bytes(&mut reader).unwrap_err(),
        ParseError::NestingTooDeep
    );

    let mut ok = Vec::new();
    for _ in 0..64 {
        ok.extend_from_slice(b"*1\r\n");
    }
    ok.extend_from_slice(b"_\r\n");
    let mut reader = SliceReader::new(ok.as_slice());
    assert!(Value::from_bytes(&mut reader).is_ok());
}

#[test]
fn decode_big_number_canonical_form() {
    let cases: Vec<(&[u8], &[u8])> = vec![
        (b"(0012\r\n", b"12"),
        (b"(+5\r\n", b"5"),
        (b"(-0\r\n", b"0"),
        (b"(1_000\r\n", b"1000"),
        (b"(-00042\r\n", b"-42"),
    ];
    for (input, digits) in cases {
        let mut reader = SliceReader::new(input);
        assert_eq!(
            Value::from_bytes(&mut reader).unwrap(),
            Value::BigNumber(digits.to_vec())
        );
    }
}

#[test]
fn decode_double_canonical_specials() {
    let cases: Vec<(&[u8], &[u8])> = vec![
        (b",inf\r\n", b"inf"),
        (b",INFINITY\r\n", b"inf"),
        (b",-Inf\r\n", b"-inf"),
        (b",+infinity\r\n", b"inf"),
        (b",NaN\r\n", b"nan"),
        (b",-nan\r\n", b"nan"),
        (b",+1.5e2\r\n", b"+1.5e2"),
        (b",.5\r\n", b".5"),
        (b",3.\r\n", b"3."),
    ];
    for (input, repr) in cases {
        let mut reader = SliceReader::new(input);
        assert_eq!(
            Value::from_bytes(&mut reader).unwrap(),
            Value::Double(repr.to_vec())
        );
    }
}

#[test]
fn decode_map_sorts_and_deduplicates_keys() {
    let input = b"%3\r\n:2\r\n+b\r\n:1\r\n+a\r\n:2\r\n+c\r\n";
    let mut reader = SliceReader::new(input);
    let result = Value::from_bytes(&mut reader).unwrap();
    let expected = Value::Mapping(vec![
        (Value::Integer(1), Value::SimpleString(b"a".to_vec())),
        (Value::Integer(2), Value::SimpleString(b"c".to_vec())),
    ]);
    assert_eq!(result, expected);
}

#[test]
fn encode_helpers_match_value_encoding() {
    assert_eq!(
        oh_my_kiwi::encode::simple_string_to_bytes(b"hey"),
        Value::SimpleString(b"hey".to_vec()).to_bytes()
    );
    assert_eq!(
        oh_my_kiwi::encode::simple_error_to_bytes(b"bad"),
        Value::SimpleError(b"bad".to_vec()).to_bytes()
    );
    assert_eq!(
        oh_my_kiwi::encode::integer_to_bytes(-7),
        Value::Integer(-7).to_bytes()
    );
    assert_eq!(
        oh_my_kiwi::encode::bulk_string_to_bytes(b"xyz"),
        Value::BulkString(b"xyz".to_vec()).to_bytes()
    );
    assert_eq!(oh_my_kiwi::encode::null_to_bytes(), Value::Null.to_bytes());
    assert_eq!(
        oh_my_kiwi::encode::boolean_to_bytes(false),
        Value::Boolean(false).to_bytes()
    );
    assert_eq!(
        oh_my_kiwi::encode::bulk_error_to_bytes(b"err"),
        Value::BulkError(b"err".to_vec()).to_bytes()
    );
}

#[test]
fn double_encodes_verbatim() {
    assert_eq!(Value::Double(b"3.14159".to_vec()).to_bytes(), b",3.14159\r\n");
}

#[test]
fn integer_boundaries() {
    let mut reader = SliceReader::new(b":9223372036854775807\r\n");
    assert_eq!(
        Value::from_bytes(&mut reader).unwrap(),
        Value::Integer(9223372036854775807)
    );
    let mut reader = SliceReader::new(b":-9223372036854775808\r\n");
    assert_eq!(
        Value::from_bytes(&mut reader).unwrap(),
        Value::Integer(-9223372036854775808)
    );
    let mut reader = SliceReader::new(b":9223372036854775808\r\n");
    assert_eq!(
        Value::from_bytes(&mut reader).unwrap_err(),
        ParseError::ExpectedNumber
    );
    assert_eq!(
        Value::Integer(-9223372036854775808).to_bytes(),
        b":-9223372036854775808\r\n"
    );
}

#[test]
fn bulk_string_is_binary_safe() {
    let payload = b"a\r\nb\x00c".to_vec();
    let v = Value::BulkString(payload.clone());
    let bytes = v.to_bytes();
    assert_eq!(bytes, b"$6\r\na\r\nb\x00c\r\n");
    let mut reader = SliceReader::new(bytes.as_slice());
    assert_eq!(Value::from_bytes(&mut reader).unwrap(), v);
}

#[test]
fn empty_simple_string() {
    let v = Value::SimpleString(Vec::new());
    assert_eq!(v.to_bytes(), b"+\r\n");
    let mut reader = SliceReader::new(b"+\r\n");
    assert_eq!(Value::from_bytes(&mut reader).unwrap(), v);
}

#[test]
fn short_bulk_payload_reads_as_closed() {
    let mut reader = SliceReader::new(b"$5\r\nabc\r\n");
    assert_eq!(
        Value::from_bytes(&mut reader).unwrap_err(),
        ParseError::ConnectionClosed
    );
}

#[test]
fn map_keys_order_by_kind_then_payload() {
    let input = b"%3\r\n#t\r\n:1\r\n+s\r\n:2\r\n:9\r\n:3\r\n";
    let mut reader = SliceReader::new(input);
    let result = Value::from_bytes(&mut reader).unwrap();
    let expected = Value::Mapping(vec![
        (Value::SimpleString(b"s".to_vec()), Value::Integer(2)),
        (Value::Integer(9), Value::Integer(3)),
        (Value::Boolean(true), Value::Integer(1)),
    ]);
    assert_eq!(result, expected);
}

#[test]
fn binary_keys_round_trip_through_store() {
    let input = b"*3\r\n$3\r\nSET\r\n$4\r\nk\r\nx\r\n$2\r\nvv\r\n*2\r\n$3\r\nGET\r\n$4\r\nk\r\nx\r\n";
    assert_eq!(run_server(input), b"+OK\r\n$2\r\nvv\r\n".to_vec());
}

#[test]
fn response_writer_projects_responses() {
    let mut writer = KiwiResponseWriter::new(MemWriter::new());
    writer.write(Response::Okay).unwrap();
    writer.write(Response::Pong).unwrap();
    writer.write(Response::Null).unwrap();
    writer.write(Response::Error(b"boom".to_vec())).unwrap();
    writer.write(Response::Value(Value::Integer(3))).unwrap();
    assert_eq!(
        writer.sink_ref().bytes(),
        &b"+OK\r\n+PONG\r\n_\r\n-boom\r\n:3\r\n".to_vec()
    );
}

#[test]
fn response_to_types_projection() {
    assert_eq!(
        Response::Okay.to_types(),
        Value::SimpleString(b"OK".to_vec())
    );
    assert_eq!(
        Response::Pong.to_types(),
        Value::SimpleString(b"PONG".to_vec())
    );
    assert_eq!(Response::Null.to_types(), Value::Null);
    assert_eq!(
        Response::Error(b"nope".to_vec()).to_types(),
        Value::SimpleError(b"nope".to_vec())
    );
}

#[test]
fn value_order_three_way() {
    assert_eq!(compare_values(&Value::Integer(1), &Value::Integer(2)), -1);
    assert_eq!(compare_values(&Value::Integer(2), &Value::Integer(1)), 1);
    assert_eq!(compare_values(&Value::Integer(2), &Value::Integer(2)), 0);
    // kinds order before payloads
    assert_eq!(
        compare_values(
            &Value::SimpleString(b"zzz".to_vec()),
            &Value::Integer(0)
        ),
        -1
    );
    // among doubles, nan sits above every other payload
    assert_eq!(
        compare_values(
            &Value::Double(b"nan".to_vec()),
            &Value::Double(b"inf".to_vec())
        ),
        1
    );
    // big numbers order numerically, not textually
    assert_eq!(
        compare_values(
            &Value::BigNumber(b"9".to_vec()),
            &Value::BigNumber(b"10".to_vec())
        ),
        -1
    );
    assert_eq!(
        compare_values(
            &Value::BigNumber(b"-10".to_vec()),
            &Value::BigNumber(b"-9".to_vec())
        ),
        -1
    );
}

#[test]
fn parse_command_directly() {
    let ping = Value::Array(vec![Value::BulkString(b"ping".to_vec())]);
    assert!(matches!(
        parse_command_from_types(ping),
        Ok(KiwiCommand::Ping)
    ));
    let unknown = Value::Array(vec![Value::BulkString(b"FLY".to_vec())]);
    assert!(matches!(
        parse_command_from_types(unknown),
        Err(CommandError::UnsupportedCommand)
    ));
    let empty = Value::Array(vec![]);
    assert!(matches!(
        parse_command_from_types(empty),
        Err(CommandError::UnsupportedCommand)
    ));
}
