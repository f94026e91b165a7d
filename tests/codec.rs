use rudis::codec::{
    bulk_reply, error_reply, null_bulk_reply, parse_str_to_repl, payload_reply, status_reply,
};
use rudis::parser::{
    decode_command, decode_command_at, decode_stream, find_last_zero, is_command_chunk, parser,
    parser_v2, parser_v3, FrameError,
};

fn strings(v: &[&str]) -> Vec<String> {
    v.iter().map(|s| s.to_string()).collect()
}

fn buffer(bytes: &[u8]) -> [u8; 255] {
    let mut b = [0u8; 255];
    b[..bytes.len()].copy_from_slice(bytes);
    b
}

#[test]
fn status_reply_frames_text() {
    assert_eq!(status_reply(b"PONG"), b"+PONG\r\n".to_vec());
    assert_eq!(status_reply(b""), b"+\r\n".to_vec());
}

#[test]
fn error_reply_frames_text() {
    assert_eq!(error_reply(b"ERR x"), b"-ERR x\r\n".to_vec());
}

#[test]
fn bulk_reply_has_byte_length() {
    assert_eq!(bulk_reply(b"bar"), b"$3\r\nbar\r\n".to_vec());
    assert_eq!(bulk_reply(b""), b"$0\r\n\r\n".to_vec());
    let long = vec![b'x'; 123];
    let mut expected = b"$123\r\n".to_vec();
    expected.extend_from_slice(&long);
    expected.extend_from_slice(b"\r\n");
    assert_eq!(bulk_reply(&long), expected);
}

#[test]
fn payload_reply_has_no_terminator() {
    assert_eq!(payload_reply(b"abc"), b"$3\r\nabc".to_vec());
}

#[test]
fn decode_at_offset_tells_end() {
    let mut bytes = b"+OK\r\n".to_vec();
    bytes.extend(parse_str_to_repl(&strings(&["get", "k"])));
    let r = decode_command_at(&bytes, 5);
    assert_eq!(r, Ok((strings(&["GET", "k"]), bytes.len())));
    assert_eq!(decode_command_at(&bytes, 0), Err(FrameError::Malformed));
}

#[test]
fn null_bulk_reply_literal() {
    assert_eq!(null_bulk_reply(), b"$-1\r\n".to_vec());
}

#[test]
fn array_of_bulk_strings() {
    assert_eq!(parse_str_to_repl(&strings(&["PING"])), b"*1\r\n$4\r\nPING\r\n".to_vec());
    assert_eq!(
        parse_str_to_repl(&strings(&["REPLCONF", "listening-port", "6380"])),
        b"*3\r\n$8\r\nREPLCONF\r\n$14\r\nlistening-port\r\n$4\r\n6380\r\n".to_vec()
    );
    assert_eq!(parse_str_to_repl(&strings(&[])), b"*0\r\n".to_vec());
}

#[test]
fn decode_upper_cases_only_the_name() {
    let r = parser_v3(&b"*2\r\n$4\r\necho\r\n$3\r\nhey\r\n".to_vec());
    assert_eq!(r, Ok(strings(&["ECHO", "hey"])));
}

#[test]
fn decode_multi_digit_length() {
    let r = parser_v3(&b"*3\r\n$3\r\nset\r\n$3\r\nkey\r\n$12\r\nhello, world\r\n".to_vec());
    assert_eq!(r, Ok(strings(&["SET", "key", "hello, world"])));
}

#[test]
fn decode_payload_may_hold_terminator() {
    let r = parser_v3(&b"*2\r\n$4\r\nECHO\r\n$4\r\na\r\nb\r\n".to_vec());
    assert_eq!(r, Ok(strings(&["ECHO", "a\r\nb"])));
}

#[test]
fn decode_missing_terminator() {
    assert_eq!(parser_v3(&b"*1\r\n$4\r\nPING".to_vec()), Err(FrameError::Malformed));
    assert_eq!(parser_v3(&b"*1".to_vec()), Err(FrameError::Malformed));
    assert_eq!(parser_v3(&Vec::new()), Err(FrameError::Malformed));
}

#[test]
fn decode_bad_length_header() {
    assert_eq!(parser_v3(&b"*1\r\n$x\r\nPING\r\n".to_vec()), Err(FrameError::Malformed));
    assert_eq!(parser_v3(&b"*\r\n".to_vec()), Err(FrameError::Malformed));
    assert_eq!(parser_v3(&b"*-1\r\n".to_vec()), Err(FrameError::Malformed));
}

#[test]
fn decode_length_past_buffer() {
    assert_eq!(parser_v3(&b"*1\r\n$9\r\nPING\r\n".to_vec()), Err(FrameError::Malformed));
    assert_eq!(parser_v3(&b"*2\r\n$4\r\nPING\r\n".to_vec()), Err(FrameError::Malformed));
    assert_eq!(
        parser_v3(&b"*1\r\n$99999999999999999999999\r\nPING\r\n".to_vec()),
        Err(FrameError::Malformed)
    );
}

#[test]
fn decode_not_utf8() {
    let r = parser_v3(&b"*2\r\n$4\r\nECHO\r\n$2\r\n\xff\xfe\r\n".to_vec());
    assert_eq!(r, Err(FrameError::NotUtf8));
}

#[test]
fn decode_non_ascii_text() {
    let r = decode_command("*2\r\n$4\r\nECHO\r\n$3\r\né!\r\n".as_bytes());
    assert_eq!(r, Ok(strings(&["ECHO", "é!"])));
}

#[test]
fn decode_empty_frame() {
    assert_eq!(parser_v3(&b"*0\r\n".to_vec()), Ok(Vec::new()));
}

#[test]
fn decode_receive_buffer() {
    let r = parser(buffer(b"*1\r\n$4\r\nping\r\n"));
    assert_eq!(r, Ok(strings(&["PING"])));
}

#[test]
fn encode_then_decode_round_trip() {
    let tokens = strings(&["set", "Key", "Value with spaces and \r\n inside"]);
    let bytes = parse_str_to_repl(&tokens);
    let decoded = parser_v3(&bytes).unwrap();
    assert_eq!(decoded, strings(&["SET", "Key", "Value with spaces and \r\n inside"]));
}

#[test]
fn stream_of_frames_in_order() {
    let mut bytes = parse_str_to_repl(&strings(&["SET", "a", "1"]));
    bytes.extend(parse_str_to_repl(&strings(&["set", "b", "2"])));
    bytes.extend(parse_str_to_repl(&strings(&["SET", "a", "3"])));
    let r = parser_v2(buffer(&bytes));
    assert_eq!(
        r,
        vec![strings(&["SET", "a", "1"]), strings(&["SET", "b", "2"]), strings(&["SET", "a", "3"])]
    );
}

#[test]
fn stream_stops_at_what_is_not_a_frame() {
    let mut bytes = parse_str_to_repl(&strings(&["SET", "a", "1"]));
    bytes.extend_from_slice(b"+FULLRESYNC x 0\r\n");
    bytes.extend(parse_str_to_repl(&strings(&["SET", "b", "2"])));
    assert_eq!(decode_stream(&bytes), vec![strings(&["SET", "a", "1"])]);
    assert_eq!(decode_stream(b""), Vec::<Vec<String>>::new());
}

#[test]
fn first_zero_byte() {
    assert_eq!(find_last_zero(buffer(b"+OK\r\n")), 5);
    assert_eq!(find_last_zero([0u8; 255]), 0);
    assert_eq!(find_last_zero([7u8; 255]), 255);
}

#[test]
fn command_chunk_detection() {
    let b = buffer(b"*1\r\n$4\r\nPING\r\n");
    assert!(is_command_chunk(&b, 14));
    assert!(!is_command_chunk(&b, 13));
    assert!(!is_command_chunk(&b, 1));
    assert!(!is_command_chunk(&b, 300));
}
