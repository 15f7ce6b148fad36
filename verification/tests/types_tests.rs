use oh_my_kiwi::Value;
use oh_my_kiwi::reader::SliceReader;

#[test]
fn types_test_simple_string() {
    let val = Value::SimpleString(b"OK".to_vec());
    assert_eq!(val.to_bytes(), b"+OK\r\n");
}

#[test]
fn types_test_simple_error() {
    let val = Value::SimpleError(b"ERR something went wrong".to_vec());
    assert_eq!(val.to_bytes(), b"-ERR something went wrong\r\n");
}

#[test]
fn types_test_integer() {
    let val = Value::Integer(123);
    assert_eq!(val.to_bytes(), b":123\r\n");
}

#[test]
fn types_test_bulk_string() {
    let val = Value::BulkString(b"foobar".to_vec());
    assert_eq!(val.to_bytes(), b"$6\r\nfoobar\r\n");
}

#[test]
fn types_test_array() {
    let val = Value::Array(vec![
        Value::SimpleString(b"foo".to_vec()),
        Value::Integer(42),
    ]);
    assert_eq!(val.to_bytes(), b"*2\r\n+foo\r\n:42\r\n");
}

#[test]
fn types_test_null() {
    let val = Value::Null;
    assert_eq!(val.to_bytes(), b"_\r\n");
}

#[test]
fn types_test_boolean_true() {
    let val = Value::Boolean(true);
    assert_eq!(val.to_bytes(), b"#t\r\n");
}

#[test]
fn types_test_boolean_false() {
    let val = Value::Boolean(false);
    assert_eq!(val.to_bytes(), b"#f\r\n");
}

#[test]
fn types_test_double() {
    let val = Value::Double(b"23.4554".to_vec());
    assert_eq!(val.to_bytes(), b",23.4554\r\n");
}

#[test]
fn types_test_big_number() {
    let val = Value::BigNumber(b"123456789012345678901234567890".to_vec());
    assert_eq!(val.to_bytes(), b"(123456789012345678901234567890\r\n");
}

#[test]
fn types_test_bulk_error() {
    let val = Value::BulkError(b"ERR bulk error".to_vec());
    assert_eq!(val.to_bytes(), b"!14\r\nERR bulk error\r\n");
}

#[test]
fn types_test_map() {
    let entries = vec![(Value::SimpleString(b"key".to_vec()), Value::Integer(1))];
    let val = Value::Mapping(entries);
    assert_eq!(val.to_bytes(), b"%1\r\n+key\r\n:1\r\n");
}

#[test]
fn types_test_set() {
    let val = Value::SetOf(vec![Value::Integer(1), Value::Integer(2)]);
    assert_eq!(val.to_bytes(), b"~2\r\n:1\r\n:2\r\n");
}

#[test]
fn types_test_empty_array() {
    let val = Value::Array(vec![]);
    assert_eq!(val.to_bytes(), b"*0\r\n");
}

#[test]
fn types_test_empty_map() {
    let val = Value::Mapping(vec![]);
    assert_eq!(val.to_bytes(), b"%0\r\n");
}

#[test]
fn types_test_nested_array() {
    let val = Value::Array(vec![
        Value::Integer(1),
        Value::Array(vec![Value::Integer(2), Value::Integer(3)]),
    ]);
    assert_eq!(val.to_bytes(), b"*2\r\n:1\r\n*2\r\n:2\r\n:3\r\n");
}

#[test]
fn types_test_null_in_array() {
    let val = Value::Array(vec![Value::Null, Value::SimpleString(b"value".to_vec())]);
    assert_eq!(val.to_bytes(), b"*2\r\n_\r\n+value\r\n");
}

#[test]
fn test_parse_simple_string() {
    let input = b"+OK\r\n";
    let mut reader = SliceReader::new(input);
    let result = Value::from_bytes(&mut reader).unwrap();
    assert_eq!(result, Value::SimpleString(b"OK".to_vec()));
}

#[test]
fn test_parse_simple_error() {
    let input = b"-Error message\r\n";
    let mut reader = SliceReader::new(input);
    let result = Value::from_bytes(&mut reader).unwrap();
    assert_eq!(result, Value::SimpleError(b"Error message".to_vec()));
}

#[test]
fn test_parse_integer() {
    let input = b":12345\r\n";
    let mut reader = SliceReader::new(input);
    let result = Value::from_bytes(&mut reader).unwrap();
    assert_eq!(result, Value::Integer(12345));
}

#[test]
fn test_parse_bulk_string() {
    let input = b"$6\r\nfoobar\r\n";
    let mut reader = SliceReader::new(input);
    let result = Value::from_bytes(&mut reader).unwrap();
    assert_eq!(result, Value::BulkString(b"foobar".to_vec()));
}

#[test]
fn test_parse_empty_bulk_string() {
    let input = b"$0\r\n\r\n";
    let mut reader = SliceReader::new(input);
    let result = Value::from_bytes(&mut reader).unwrap();
    assert_eq!(result, Value::BulkString(b"".to_vec()));
}

#[test]
fn test_parse_null_bulk_string() {
    let input = b"$-1\r\n";
    let mut reader = SliceReader::new(input);
    let result = Value::from_bytes(&mut reader).unwrap();
    assert_eq!(result, Value::Null);
}

#[test]
fn test_parse_null() {
    let input = b"_\r\n";
    let mut reader = SliceReader::new(input);
    let result = Value::from_bytes(&mut reader).unwrap();
    assert_eq!(result, Value::Null);
}

#[test]
fn test_parse_boolean() {
    let input_true = b"#t\r\n";
    let mut reader_true = SliceReader::new(input_true);
    let result_true = Value::from_bytes(&mut reader_true).unwrap();
    assert_eq!(result_true, Value::Boolean(true));

    let input_false = b"#f\r\n";
    let mut reader_false = SliceReader::new(input_false);
    let result_false = Value::from_bytes(&mut reader_false).unwrap();
    assert_eq!(result_false, Value::Boolean(false));
}

#[test]
fn test_parse_double() {
    let input = b",1.234\r\n";
    let mut reader = SliceReader::new(input);
    let result = Value::from_bytes(&mut reader).unwrap();
    assert_eq!(result, Value::Double(b"1.234".to_vec()));
}

#[test]
fn test_parse_double_inf() {
    let input = b",inf\r\n";
    let mut reader = SliceReader::new(input);
    let result = Value::from_bytes(&mut reader).unwrap();
    assert_eq!(result, Value::Double(b"inf".to_vec()));
}

#[test]
fn test_parse_big_number() {
    let input = b"(12345678901234567890\r\n";
    let mut reader = SliceReader::new(input);
    let result = Value::from_bytes(&mut reader).unwrap();
    assert_eq!(result, Value::BigNumber(b"12345678901234567890".to_vec()));
}

#[test]
fn test_parse_bulk_error() {
    let input = b"!13\r\nError message\r\n";
    let mut reader = SliceReader::new(input);
    let result = Value::from_bytes(&mut reader).unwrap();
    assert_eq!(result, Value::BulkError(b"Error message".to_vec()));
}

#[test]
fn test_parse_array() {
    let input = b"*2\r\n$3\r\nfoo\r\n:42\r\n";
    let mut reader = SliceReader::new(input);
    let result = Value::from_bytes(&mut reader).unwrap();
    let expected = Value::Array(vec![
        Value::BulkString(b"foo".to_vec()),
        Value::Integer(42),
    ]);
    assert_eq!(result, expected);
}

#[test]
fn test_parse_empty_array() {
    let input = b"*0\r\n";
    let mut reader = SliceReader::new(input);
    let result = Value::from_bytes(&mut reader).unwrap();
    assert_eq!(result, Value::Array(vec![]));
}

#[test]
fn test_parse_nested_array() {
    let input = b"*2\r\n:1\r\n*2\r\n+two\r\n+three\r\n";
    let mut reader = SliceReader::new(input);
    let result = Value::from_bytes(&mut reader).unwrap();
    let expected = Value::Array(vec![
        Value::Integer(1),
        Value::Array(vec![
            Value::SimpleString(b"two".to_vec()),
            Value::SimpleString(b"three".to_vec()),
        ]),
    ]);
    assert_eq!(result, expected);
}

#[test]
fn test_parse_map() {
    let input = b"%2\r\n+key1\r\n:1\r\n+key2\r\n:2\r\n";
    let mut reader = SliceReader::new(input);
    let result = Value::from_bytes(&mut reader).unwrap();

    let expected = Value::Mapping(vec![
        (Value::SimpleString(b"key1".to_vec()), Value::Integer(1)),
        (Value::SimpleString(b"key2".to_vec()), Value::Integer(2)),
    ]);
    assert_eq!(result, expected);
}

#[test]
fn test_parse_empty_map() {
    let input = b"%0\r\n";
    let mut reader = SliceReader::new(input);
    let result = Value::from_bytes(&mut reader).unwrap();
    assert_eq!(result, Value::Mapping(vec![]));
}

#[test]
fn test_parse_set() {
    let input = b"~3\r\n+one\r\n:2\r\n#t\r\n";
    let mut reader = SliceReader::new(input);
    let result = Value::from_bytes(&mut reader).unwrap();
    let expected = Value::SetOf(vec![
        Value::SimpleString(b"one".to_vec()),
        Value::Integer(2),
        Value::Boolean(true),
    ]);
    assert_eq!(result, expected);
}
