use cbf_rs::headers::{
    field, field_body, field_body_contents, field_name, read_headers, Error, Headers, ParseResult,
};
use cbf_rs::stream::{ByteCursor, IoError};

const HEADER_TEXT: &str = "\
Content-Transfer-Encoding: BINARY\r
X-Binary-ID: 1\r
X-Binary-Element-Type: \"signed 32-bit integer\"\r
X-Binary-Element-Byte-Order: LITTLE_ENDIAN\r
X-Binary-Number-of-Elements: 8294400\r
X-Binary-Size-Fastest-Dimension: 2880\r
X-Binary-Size-Second-Dimension: 2880\r
X-Binary-Size-Padding: 1\r
Content-Type: application/octet-stream;\r
     conversions=\"x-CBF_BYTE_OFFSET\"\r
X-Binary-Size:   10161580\r
Content-MD5:     kL8G8UnwN1oKBdHWVkb0CQ==\r
\r\n";

#[test]
fn test_real_headers() {
    let mut reader = ByteCursor::new(HEADER_TEXT.as_bytes());
    let headers = read_headers(&mut reader).expect("to parse real headers");
    assert_eq!(reader.position(), HEADER_TEXT.len());
    assert_eq!(headers.len(), 11);
    assert_eq!(
        headers.get("Content-Transfer-Encoding"),
        Some(&"BINARY".into()),
        "Content-Transfer-Encoding"
    );
    assert_eq!(headers.get("X-Binary-ID"), Some(&"1".into()), "X-Binary-ID");
    assert_eq!(
        headers.get("X-Binary-Element-Type"),
        Some(&"signed 32-bit integer".into()),
        "X-Binary-Element-Type"
    );
    assert_eq!(
        headers.get("X-Binary-Element-Byte-Order"),
        Some(&"LITTLE_ENDIAN".into()),
        "X-Binary-Element-Byte-Order"
    );
    assert_eq!(
        headers.get("X-Binary-Number-of-Elements"),
        Some(&"8294400".into()),
        "X-Binary-Number-of-Elements"
    );
    assert_eq!(
        headers.get("X-Binary-Size-Fastest-Dimension"),
        Some(&"2880".into()),
        "X-Binary-Size-Fastest-Dimension"
    );
    assert_eq!(
        headers.get("X-Binary-Size-Second-Dimension"),
        Some(&"2880".into()),
        "X-Binary-Size-Second-Dimension"
    );
    assert_eq!(headers.get("X-Binary-Size-Padding"), Some(&"1".into()), "X-Binary-Size-Padding");
    assert_eq!(
        headers.get("Content-Type"),
        Some(&"application/octet-stream;conversions=\"x-CBF_BYTE_OFFSET\"".into()),
        "Content-Type"
    );
    assert_eq!(headers.get("X-Binary-Size"), Some(&"10161580".into()), "X-Binary-Size");
    assert_eq!(
        headers.get("Content-MD5"),
        Some(&"kL8G8UnwN1oKBdHWVkb0CQ==".into()),
        "Content-MD5"
    );
}

#[test]
fn test_field_name() {
    assert_eq!(field_name(b"X-Binary-ID:"), ParseResult::Parsed(&b"X-Binary-ID"[..], 11));
    assert_eq!(field_name(b"Content-Type: "), ParseResult::Parsed(&b"Content-Type"[..], 12));
    assert_eq!(field_name(b"X-Binary-Size : "), ParseResult::Parsed(&b"X-Binary-Size"[..], 13));
    assert_eq!(field_name(b"Content-MD5 :"), ParseResult::Parsed(&b"Content-MD5"[..], 11));

    assert_eq!(field_name(b":"), ParseResult::Error);
    assert_eq!(field_name(b": "), ParseResult::Error);
    assert_eq!(field_name(b" : "), ParseResult::Error);
    assert_eq!(field_name(b" :"), ParseResult::Error);

    assert!(matches!(field_name(b""), ParseResult::Incomplete));
}

#[test]
fn test_field_body() {
    let input = b"text;\r\n    text\r\nNext-Field";
    assert_eq!(
        field_body(input),
        ParseResult::Parsed(b"text;text".to_vec(), input.len() - b"\r\nNext-Field".len())
    );
    let input = b"text;\r\n\ttext\r\n\r\n";
    assert_eq!(
        field_body(input),
        ParseResult::Parsed(b"text;text".to_vec(), input.len() - b"\r\n\r\n".len())
    );
}

#[test]
fn test_field_body_contents() {
    assert_eq!(field_body_contents(b"\"q-string\"\r\n"), ParseResult::Parsed(&b"q-string"[..], 10));
    let input = b"text text;\"=:text\r\n";
    assert_eq!(
        field_body_contents(input),
        ParseResult::Parsed(&b"text text;\"=:text"[..], input.len() - 2)
    );
    assert_eq!(field_body_contents(b"\"text\r\n"), ParseResult::Parsed(&b"\"text"[..], 5));
}

#[test]
fn quoted_string_keeps_escapes() {
    assert_eq!(
        field_body_contents(b"\"a\\\"b\"\r\n"),
        ParseResult::Parsed(&b"a\\\"b"[..], 6)
    );
}

#[test]
fn field_needs_the_next_line_to_finish() {
    assert_eq!(field(b"Name: value\r\n"), ParseResult::Incomplete);
    match field(b"Name: value\r\nNext") {
        ParseResult::Parsed((name, value), k) => {
            assert_eq!(name, b"Name");
            assert_eq!(value, b"value".to_vec());
            assert_eq!(k, 13);
        }
        other => panic!("unexpected {:?}", other),
    }
}

#[test]
fn field_without_colon_is_a_syntax_error() {
    assert_eq!(field(b"Name value\r\n\r\n"), ParseResult::Error);
}

#[test]
fn block_cut_short_is_an_eof_error() {
    let mut reader = ByteCursor::new(b"Name: value\r\n");
    assert_eq!(read_headers(&mut reader).err(), Some(Error::IO(IoError::UnexpectedEof)));
}

#[test]
fn block_with_bad_line_is_a_parse_error() {
    let mut reader = ByteCursor::new(b": value\r\n\r\n");
    assert_eq!(read_headers(&mut reader).err(), Some(Error::Parsing));
}

#[test]
fn value_that_is_not_utf8_is_invalid_data() {
    let mut reader = ByteCursor::new(b"Name: \xff\r\n\r\n");
    assert_eq!(read_headers(&mut reader).err(), Some(Error::IO(IoError::InvalidData)));
}

#[test]
fn empty_stream_gives_no_fields() {
    let mut reader = ByteCursor::new(b"");
    assert_eq!(read_headers(&mut reader).unwrap().len(), 0);
}

#[test]
fn last_write_wins() {
    let mut reader = ByteCursor::new(b"A: 1\r\nB: 2\r\nA: 3\r\n\r\n");
    let headers = read_headers(&mut reader).unwrap();
    assert_eq!(headers.len(), 2);
    assert_eq!(headers.get("A"), Some(&"3".to_string()));
}

#[test]
fn lookup_ignoring_case() {
    let mut headers = Headers::new();
    headers.insert("Content-Type".to_string(), "a/b".to_string());
    assert_eq!(headers.get("content-type"), None);
    assert_eq!(headers.get_ignore_case("content-type"), Some(&"a/b".to_string()));
}
