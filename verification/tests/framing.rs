use monad::framing::{read_message, write_message, ByteReader, FrameError, LengthError};

fn frame(body: &str) -> Vec<u8> {
    let mut out = Vec::new();
    write_message(&mut out, body);
    out
}

#[test]
fn roundtrip_simple_body() {
    let body = r#"{"jsonrpc":"2.0","id":1,"result":null}"#;
    let mut r = ByteReader::new(frame(body));
    assert_eq!(read_message(&mut r).unwrap(), body);
}

#[test]
fn roundtrip_body_with_embedded_newlines() {
    let body = "{\n  \"key\": \"value with\\nliteral newline in source\"\n}";
    let mut r = ByteReader::new(frame(body));
    assert_eq!(read_message(&mut r).unwrap(), body);
}

#[test]
fn reads_back_to_back_messages() {
    let mut bytes = frame("first");
    bytes.extend(frame("second"));
    let mut r = ByteReader::new(bytes);
    assert_eq!(read_message(&mut r).unwrap(), "first");
    assert_eq!(read_message(&mut r).unwrap(), "second");
}

#[test]
fn ignores_unknown_headers_case_insensitively() {
    let bytes = b"X-Whatever: foo\r\nCONTENT-length: 2\r\n\r\nhi";
    let mut r = ByteReader::new(bytes.to_vec());
    assert_eq!(read_message(&mut r).unwrap(), "hi");
}

#[test]
fn missing_content_length_is_error() {
    let bytes = b"X-Whatever: foo\r\n\r\nhi";
    let mut r = ByteReader::new(bytes.to_vec());
    let err = read_message(&mut r).unwrap_err();
    assert!(matches!(err, FrameError::MissingContentLength));
    assert_eq!(err.message(), "missing Content-Length header");
}

#[test]
fn malformed_header_is_error() {
    let bytes = b"no-colon-here\r\n\r\n";
    let mut r = ByteReader::new(bytes.to_vec());
    let err = read_message(&mut r).unwrap_err();
    assert!(matches!(err, FrameError::MalformedHeader { .. }));
    assert_eq!(err.message(), "malformed header line \"no-colon-here\"");
}

#[test]
fn truncated_body_is_eof() {
    let bytes = b"Content-Length: 10\r\n\r\nshort";
    let mut r = ByteReader::new(bytes.to_vec());
    let err = read_message(&mut r).unwrap_err();
    assert!(matches!(
        err,
        FrameError::UnexpectedEof {
            while_doing: "body"
        }
    ));
}

#[test]
fn empty_stream_is_eof() {
    let mut r = ByteReader::new(Vec::new());
    let err = read_message(&mut r).unwrap_err();
    assert!(matches!(
        err,
        FrameError::UnexpectedEof {
            while_doing: "headers"
        }
    ));
    assert_eq!(err.message(), "unexpected end of stream while reading headers");
}

#[test]
fn lone_lf_terminator_is_accepted() {
    let bytes = b"Content-Length: 2\n\nok";
    let mut r = ByteReader::new(bytes.to_vec());
    assert_eq!(read_message(&mut r).unwrap(), "ok");
}

#[test]
fn header_lines_that_are_not_utf8_fail() {
    let mut r = ByteReader::new(vec![0xff, 0xfe, b'\n']);
    match read_message(&mut r).unwrap_err() {
        FrameError::Io(e) => assert_eq!(e, "stream did not contain valid UTF-8"),
        other => panic!("{other:?}"),
    }
}

#[test]
fn bodies_that_are_not_utf8_fail() {
    let mut bytes = b"Content-Length: 2\r\n\r\n".to_vec();
    bytes.push(b'a');
    bytes.push(0xff);
    let mut r = ByteReader::new(bytes);
    let err = read_message(&mut r).unwrap_err();
    assert!(matches!(err, FrameError::Utf8(_)));
    assert_eq!(
        err.message(),
        "body was not valid UTF-8: invalid utf-8 sequence of 1 bytes from index 1"
    );
}

#[test]
fn content_lengths_are_decimal_numbers() {
    for (value, want) in [
        ("", LengthError::Empty),
        ("x", LengthError::InvalidDigit),
        ("-1", LengthError::InvalidDigit),
        ("+", LengthError::InvalidDigit),
        ("99999999999999999999999", LengthError::TooLarge),
    ] {
        let mut r = ByteReader::new(format!("Content-Length: {value}\r\n\r\n").into_bytes());
        match read_message(&mut r).unwrap_err() {
            FrameError::InvalidContentLength { value: v, source } => {
                assert_eq!(v, value);
                assert_eq!(source, want);
            }
            other => panic!("{other:?}"),
        }
    }
    let mut r = ByteReader::new(b"Content-Length:  +3 \r\n\r\nabcd".to_vec());
    assert_eq!(read_message(&mut r).unwrap(), "abc");
}

#[test]
fn invalid_content_length_message_quotes_the_value() {
    let mut r = ByteReader::new(b"Content-Length: 1\"2\r\n\r\n".to_vec());
    let err = read_message(&mut r).unwrap_err();
    assert_eq!(
        err.message(),
        "invalid Content-Length value \"1\\\"2\": invalid digit found in string"
    );
}

#[test]
fn what_is_written_is_a_header_and_the_bytes() {
    let mut out = b"x".to_vec();
    write_message(&mut out, "h\u{e9}");
    assert_eq!(out, b"xContent-Length: 3\r\n\r\nh\xc3\xa9".to_vec());
}
