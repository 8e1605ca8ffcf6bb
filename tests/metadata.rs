use cbf_rs::metadata::conversion_from_lowercase;
use cbf_rs::metadata::{
    parse_params_to_conversion, parse_usize, read_metadata, ByteOrder, Charset,
    ContentTransferEncoding, ContentType, Conversion, ElementType, Encoding, Error, ErrorKind,
    PackedKind,
};
use cbf_rs::stream::ByteCursor;

const HEADER_TEXT: &str = "\
Content-Transfer-Encoding: BINARY\r
X-Binary-ID: 1\r
X-Binary-Element-Type: \"signed 32-bit integer\"\r
X-Binary-Element-Byte-Order: LITTLE_ENDIAN\r
X-Binary-Number-of-Elements: 8294400\r
X-Binary-Size-Fastest-Dimension: 2880\r
X-Binary-Size-Second-Dimension: 2880\r
X-Binary-Size-Padding: 1\r
Content-Type: application/octet-stream;\r
     conversions=\"x-CBF_BYTE_OFFSET\"\r
X-Binary-Size:   10161580\r
Content-MD5:     kL8G8UnwN1oKBdHWVkb0CQ==\r
\r\n";

fn metadata_error(text: &str) -> Error {
    read_metadata(&mut ByteCursor::new(text.as_bytes())).err().expect("an error")
}

#[test]
fn test_real_metadata() {
    let metadata =
        read_metadata(&mut ByteCursor::new(HEADER_TEXT.as_bytes())).expect("to parse real metadata");
    assert_eq!(metadata.content_type.mime_type, "application".to_owned(), "Content-Type mime type");
    assert_eq!(metadata.content_type.subtype, "octet-stream".to_owned(), "Content-Type subtype");
    assert_eq!(
        metadata.content_type.conversion,
        Some(Conversion::ByteOffset),
        "Content-Type conversion"
    );
    assert_eq!(
        metadata.content_transfer_encoding.encoding,
        Encoding::Binary,
        "Content-Transfer-Encoding"
    );
    assert_eq!(
        metadata.content_transfer_encoding.charset, None,
        "Content-Transfer-Encoding charset"
    );
    assert_eq!(metadata.size, 10161580, "Size");
    assert_eq!(metadata.padding, Some(1), "Padding");
    assert_eq!(metadata.byte_order, ByteOrder::LittleEndian, "Byte order");
    assert_eq!(
        metadata.md5_digest,
        Some("kL8G8UnwN1oKBdHWVkb0CQ==".to_owned()),
        "MD5 digest"
    );
    assert_eq!(metadata.element_type, ElementType::Signed32bitInteger, "Element type");
    assert_eq!(metadata.element_count, 8294400, "Element count");
    assert_eq!(metadata.width, Some(2880), "Width");
    assert_eq!(metadata.height, Some(2880), "Height");
    assert_eq!(metadata.depth, None, "Depth");
}

#[test]
fn parse_content_type() {
    let content_type = "application/octet-stream"
        .parse::<ContentType>()
        .expect("to parse simple content type");
    assert_eq!(content_type.mime_type, "application".to_owned(), "Content-Type mime type");
    assert_eq!(content_type.subtype, "octet-stream".to_owned(), "Content-Type subtype");
    assert_eq!(content_type.conversion, None, "Content-Type conversion");

    let content_type = "application/octet-stream;conversions=\"x-CBF_BYTE_OFFSET\""
        .parse::<ContentType>()
        .expect("to parse content type with conversion");
    assert_eq!(content_type.mime_type, "application".to_owned(), "Content-Type mime type");
    assert_eq!(content_type.subtype, "octet-stream".to_owned(), "Content-Type subtype");
    assert_eq!(
        content_type.conversion,
        Some(Conversion::ByteOffset),
        "Content-Type conversion"
    );

    let content_type = "application/octet-stream;conversions=\"X-CBF_PACKED\";uncorrelated_sections"
        .parse::<ContentType>()
        .expect("to parse content type with conversion and packed parameter");
    assert_eq!(content_type.mime_type, "application".to_owned(), "Content-Type mime type");
    assert_eq!(content_type.subtype, "octet-stream".to_owned(), "Content-Type subtype");
    assert_eq!(
        content_type.conversion,
        Some(Conversion::Packed(Some(PackedKind::UncorrelatedSections))),
        "Content-Type conversion"
    );

    let content_type = "application/octet-stream;flat;conversions=\"X-CBF_PACKED\""
        .parse::<ContentType>()
        .expect("to parse content type with conversion and packed parameter out of order");
    assert_eq!(content_type.mime_type, "application".to_owned(), "Content-Type mime type");
    assert_eq!(content_type.subtype, "octet-stream".to_owned(), "Content-Type subtype");
    assert_eq!(
        content_type.conversion,
        Some(Conversion::Packed(Some(PackedKind::Flat))),
        "Content-Type conversion"
    );
}

#[test]
fn parse_content_transfer_encoding() {
    let content_transfer_encoding = "BINARY"
        .parse::<ContentTransferEncoding>()
        .expect("to parse simple content transfer encoding");
    assert_eq!(content_transfer_encoding.encoding, Encoding::Binary, "Content-Transfer-Encoding");
    assert_eq!(content_transfer_encoding.charset, None, "Content-Transfer-Encoding charset");

    let content_transfer_encoding = "BINARY; charset=\"UTF-8\""
        .parse::<ContentTransferEncoding>()
        .expect("to parse content transfer encoding with charset");
    assert_eq!(content_transfer_encoding.encoding, Encoding::Binary, "Content-Transfer-Encoding");
    assert_eq!(
        content_transfer_encoding.charset,
        Some(Charset::UTF8),
        "Content-Transfer-Encoding charset"
    );
}

#[test]
fn parse_byte_order() {
    let byte_order = "LITTLE_ENDIAN".parse::<ByteOrder>().expect("to parse little endian byte order");
    assert_eq!(byte_order, ByteOrder::LittleEndian, "Byte order");

    let byte_order = "BIG_ENDIAN".parse::<ByteOrder>().expect("to parse big endian byte order");
    assert_eq!(byte_order, ByteOrder::BigEndian, "Byte order");
}

#[test]
fn parse_element_type() {
    let element_type = "signed 32-bit integer"
        .parse::<ElementType>()
        .expect("to parse signed 32-bit integer element type");
    assert_eq!(element_type, ElementType::Signed32bitInteger, "Element type");

    let element_type = "unsigned 32-bit integer"
        .parse::<ElementType>()
        .expect("to parse unsigned 32-bit integer element type");
    assert_eq!(element_type, ElementType::Unsigned32bitInteger, "Element type");

    let element_type = "signed 32-bit real IEEE"
        .parse::<ElementType>()
        .expect("to parse signed 32-bit real IEEE element type");
    assert_eq!(element_type, ElementType::Signed32bitReal, "Element type");
}

#[test]
fn unknown_tokens_are_rejected() {
    assert_eq!("x-base7".parse::<Encoding>().err(), Some(Error::Parsing(ErrorKind::InvalidEncoding)));
    assert_eq!("utf-32".parse::<Charset>().err(), Some(Error::Parsing(ErrorKind::InvalidCharset)));
    assert_eq!("middle".parse::<ByteOrder>().err(), Some(Error::Parsing(ErrorKind::InvalidByteOrder)));
    assert_eq!(
        "signed 7-bit integer".parse::<ElementType>().err(),
        Some(Error::Parsing(ErrorKind::InvalidElementType))
    );
    assert_eq!(
        "BINARYISH".parse::<ContentTransferEncoding>().err(),
        Some(Error::Parsing(ErrorKind::InvalidContentTransferEncoding))
    );
    assert_eq!(
        "binary; charset=klingon".parse::<ContentTransferEncoding>().err(),
        Some(Error::Parsing(ErrorKind::InvalidCharset))
    );
    assert_eq!(
        "application".parse::<ContentType>().err(),
        Some(Error::Parsing(ErrorKind::InvalidContentType))
    );
    assert_eq!(
        "a/b;conversions=\"x-cbf_zip\"".parse::<ContentType>().err(),
        Some(Error::Parsing(ErrorKind::InvalidConversion))
    );
}

#[test]
fn every_encoding_token() {
    let tokens = [
        ("X-BASE8", Encoding::Base8),
        ("x-base10", Encoding::Base10),
        ("x-base16", Encoding::Base16),
        ("x-base32k", Encoding::Base32K),
        ("base64", Encoding::Base64),
        ("binary", Encoding::Binary),
        ("Quoted-Printable", Encoding::QuotedPrintable),
    ];
    for (t, e) in tokens {
        assert_eq!(t.parse::<Encoding>().unwrap(), e);
    }
}

#[test]
fn packing_only_goes_with_packed() {
    assert_eq!(parse_params_to_conversion("flat;conversions=x-cbf_canonical").unwrap(), Some(Conversion::Canonical));
    assert_eq!(parse_params_to_conversion("conversions=\"X-CBF_PACKED\"").unwrap(), Some(Conversion::Packed(None)));
    assert_eq!(parse_params_to_conversion(" charset=x ").unwrap(), None);
}

#[test]
fn sizes_in_decimal() {
    assert_eq!(parse_usize("10161580"), Some(10161580));
    assert_eq!(parse_usize("+7"), Some(7));
    assert_eq!(parse_usize("+"), None);
    assert_eq!(parse_usize(""), None);
    assert_eq!(parse_usize("-1"), None);
    assert_eq!(parse_usize(" 1"), None);
    assert_eq!(parse_usize("99999999999999999999999999"), None);
}

#[test]
fn missing_and_malformed_fields() {
    assert_eq!(metadata_error("\r\n"), Error::Parsing(ErrorKind::MissingContentType));
    assert_eq!(
        metadata_error("Content-Type: a/b\r\n\r\n"),
        Error::Parsing(ErrorKind::MissingContentTransferEncoding)
    );
    assert_eq!(
        metadata_error("Content-Type: a/b\r\nContent-Transfer-Encoding: binary\r\n\r\n"),
        Error::Parsing(ErrorKind::MissingSize)
    );
    assert_eq!(
        metadata_error(
            "Content-Type: a/b\r\nContent-Transfer-Encoding: binary\r\nX-Binary-Size: ten\r\n\r\n"
        ),
        Error::Parsing(ErrorKind::InvalidSize)
    );
    assert_eq!(
        metadata_error(
            "Content-Type: a/b\r\nContent-Transfer-Encoding: binary\r\nX-Binary-Size: 10\r\n\r\n"
        ),
        Error::Parsing(ErrorKind::MissingByteOrder)
    );
    let mut text = HEADER_TEXT.replace("X-Binary-Size-Fastest-Dimension: 2880", "X-Binary-Size-Fastest-Dimension: wide");
    assert_eq!(metadata_error(&text), Error::Parsing(ErrorKind::InvalidWidth));
    text = HEADER_TEXT.replace("X-Binary-Number-of-Elements: 8294400\r\n", "");
    assert_eq!(metadata_error(&text), Error::Parsing(ErrorKind::MissingElementCount));
}

#[test]
fn lowered_text_entry_points() {
    assert_eq!(
        conversion_from_lowercase("conversions=\"x-cbf_packed\";flat").unwrap(),
        Some(Conversion::Packed(Some(PackedKind::Flat)))
    );
    assert_eq!(
        conversion_from_lowercase("conversions=X-CBF_PACKED").err(),
        Some(Error::Parsing(ErrorKind::InvalidConversion))
    );
    let t = ContentTransferEncoding::from_lowercase("binary; charset=utf-16").unwrap();
    assert_eq!((t.encoding, t.charset), (Encoding::Binary, Some(Charset::UTF16)));
    assert_eq!(
        ContentTransferEncoding::from_lowercase("BINARY").err(),
        Some(Error::Parsing(ErrorKind::InvalidContentTransferEncoding))
    );
}
