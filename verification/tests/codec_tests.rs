use resp_server::codec::{decode_frame, encode, DecodeError, Decoder};
use resp_server::model::RespValue;

#[test]
fn decode_simple_string() {
    let mut d = Decoder::new(b"+OK\r\n".to_vec());
    assert_eq!(d.decode(), Ok(RespValue::SimpleString("OK".to_string())));
}

#[test]
fn decode_error_frame() {
    let mut d = Decoder::new(b"-ERR boom\r\n".to_vec());
    assert_eq!(d.decode(), Ok(RespValue::Error("ERR boom".to_string())));
}

#[test]
fn decode_bulk_takes_first_line_as_payload() {
    let mut d = Decoder::new(b"$hello\r\n".to_vec());
    assert_eq!(d.decode(), Ok(RespValue::BulkString("hello".to_string())));
}

#[test]
fn decode_empty_payload() {
    let mut d = Decoder::new(b"+\r\n".to_vec());
    assert_eq!(d.decode(), Ok(RespValue::SimpleString("".to_string())));
}

#[test]
fn decode_unknown_tag_falls_back_to_pong() {
    let mut d = Decoder::new(b":42\r\n".to_vec());
    assert_eq!(d.decode(), Ok(RespValue::SimpleString("PONG".to_string())));
    let mut d2 = Decoder::new(b"*1\r\n".to_vec());
    assert_eq!(d2.decode(), Ok(RespValue::SimpleString("PONG".to_string())));
}

#[test]
fn decode_empty_input_is_eof() {
    let mut d = Decoder::new(Vec::new());
    assert_eq!(d.decode(), Err(DecodeError::UnexpectedEof));
}

#[test]
fn decode_lone_carriage_return_is_eof() {
    let mut d = Decoder::new(b"\r".to_vec());
    assert_eq!(d.decode(), Err(DecodeError::UnexpectedEof));
}

#[test]
fn decode_too_short_line_is_invalid() {
    let mut d = Decoder::new(b"a\n".to_vec());
    assert_eq!(d.decode(), Err(DecodeError::InvalidInput));
}

#[test]
fn decode_line_without_crlf_is_invalid() {
    let mut d = Decoder::new(b"+ab\n".to_vec());
    assert_eq!(d.decode(), Err(DecodeError::InvalidInput));
    let mut d2 = Decoder::new(b"+abc".to_vec());
    assert_eq!(d2.decode(), Err(DecodeError::InvalidInput));
}

#[test]
fn decode_invalid_utf8_payload_is_invalid() {
    let mut d = Decoder::new(vec![b'+', 0xff, 0xfe, b'\r', b'\n']);
    assert_eq!(d.decode(), Err(DecodeError::InvalidInput));
}

#[test]
fn decode_consumes_frames_in_order() {
    let mut d = Decoder::new(b"+A\r\n-B\r\n$C\r\n".to_vec());
    assert_eq!(d.decode(), Ok(RespValue::SimpleString("A".to_string())));
    assert_eq!(d.decode(), Ok(RespValue::Error("B".to_string())));
    assert_eq!(d.decode(), Ok(RespValue::BulkString("C".to_string())));
    assert_eq!(d.decode(), Err(DecodeError::UnexpectedEof));
}

#[test]
fn decode_frame_on_one_line() {
    let line = b"+PONG\r\n".to_vec();
    assert_eq!(
        decode_frame(&line),
        Ok(RespValue::SimpleString("PONG".to_string()))
    );
}

#[test]
fn encode_simple_string() {
    let v = RespValue::SimpleString("OK".to_string());
    assert_eq!(encode(&v), b"+OK\r\n".to_vec());
}

#[test]
fn encode_error() {
    let v = RespValue::Error("ERR unknown command".to_string());
    assert_eq!(encode(&v), b"-ERR unknown command\r\n".to_vec());
}

#[test]
fn encode_integers() {
    assert_eq!(encode(&RespValue::Integer(123)), b":123\r\n".to_vec());
    assert_eq!(encode(&RespValue::Integer(0)), b":0\r\n".to_vec());
    assert_eq!(encode(&RespValue::Integer(-45)), b":-45\r\n".to_vec());
    assert_eq!(
        encode(&RespValue::Integer(i64::MIN)),
        b":-9223372036854775808\r\n".to_vec()
    );
    assert_eq!(
        encode(&RespValue::Integer(i64::MAX)),
        b":9223372036854775807\r\n".to_vec()
    );
}

#[test]
fn encode_bulk_string_with_byte_length() {
    assert_eq!(
        encode(&RespValue::BulkString("bar".to_string())),
        b"$3\r\nbar\r\n".to_vec()
    );
    assert_eq!(
        encode(&RespValue::BulkString("".to_string())),
        b"$0\r\n\r\n".to_vec()
    );
    // length counts bytes, not characters
    assert_eq!(
        encode(&RespValue::BulkString("\u{e9}".to_string())),
        b"$2\r\n\xc3\xa9\r\n".to_vec()
    );
}

#[test]
fn encode_binary_bulk_string() {
    let v = RespValue::BinaryBulkString(vec![0, 255]);
    assert_eq!(encode(&v), b"$2\r\n\x00\xff\r\n".to_vec());
}

#[test]
fn encode_null_forms() {
    assert_eq!(encode(&RespValue::Null), b"$-1\r\n".to_vec());
    assert_eq!(encode(&RespValue::NullArray), b"*-1\r\n".to_vec());
}

#[test]
fn encode_array_concatenates_elements() {
    let v = RespValue::Array(vec![
        RespValue::SimpleString("a".to_string()),
        RespValue::Integer(7),
    ]);
    assert_eq!(encode(&v), b"*2\r\n+a\r\n:7\r\n".to_vec());
    assert_eq!(encode(&RespValue::Array(Vec::new())), b"*0\r\n".to_vec());
}

#[test]
fn encode_nested_array() {
    let inner = RespValue::Array(vec![RespValue::Null]);
    let v = RespValue::Array(vec![inner, RespValue::BulkString("x".to_string())]);
    assert_eq!(encode(&v), b"*2\r\n*1\r\n$-1\r\n$1\r\nx\r\n".to_vec());
}

#[test]
fn decode_then_encode_round_trips_simple_frames() {
    for line in [b"+OK\r\n".to_vec(), b"-ERR boom\r\n".to_vec(), b"+\r\n".to_vec()] {
        let mut d = Decoder::new(line.clone());
        let v = d.decode().unwrap();
        assert_eq!(encode(&v), line);
    }
}
