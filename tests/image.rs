use cbf_rs::image::{Image, ImageCoordinate, ImageEnum, Pixels};
use cbf_rs::render::{min_max, write_to_pixel_buffer};
use cbf_rs::stream::ByteCursor;
use cbf_rs::{read_all_images, read_image, try_read_next_image, Error};

const HEADER_TEXT: &str = "\
Content-Transfer-Encoding: BINARY\r
X-Binary-ID: 1\r
X-Binary-Element-Type: \"signed 32-bit integer\"\r
X-Binary-Element-Byte-Order: LITTLE_ENDIAN\r
X-Binary-Number-of-Elements: 8294400\r
X-Binary-Size-Fastest-Dimension: 2880\r
X-Binary-Size-Second-Dimension: 2880\r
X-Binary-Size-Padding: 1\r
Content-Type: application/octet-stream;\r
     conversions=\"x-CBF_BYTE_OFFSET\"\r
X-Binary-Size:   10161580\r
Content-MD5:     kL8G8UnwN1oKBdHWVkb0CQ==\r
\r\n";

const START: &[u8] = b"--CIF-BINARY-FORMAT-SECTION--\r\n";
const END: &[u8] = b"--CIF-BINARY-FORMAT-SECTION----\r\n";
const MAGIC: [u8; 4] = [0x0c, 0x1a, 0x04, 0xd5];

/// Compressed deltas for `values`, one byte each where that suffices, else three.
fn compress(values: &[i32]) -> Vec<u8> {
    let mut out = Vec::new();
    let mut base = 0i32;
    for v in values {
        let d = v - base;
        base = *v;
        if (-127..=127).contains(&d) {
            out.push(d as i8 as u8);
        } else {
            out.push(0x80);
            out.extend_from_slice(&(d as i16).to_le_bytes());
        }
    }
    out
}

/// A whole stream: some CIF text, then one binary section per header and payload.
fn stream(sections: &[(&str, Vec<u8>)]) -> Vec<u8> {
    let mut out = b"###CBF: VERSION 1.5\r\ndata_frame\r\n".to_vec();
    for (header, payload) in sections {
        out.extend_from_slice(b"_array_data.data\r\n;\r\n");
        out.extend_from_slice(START);
        out.extend_from_slice(header.as_bytes());
        out.extend_from_slice(&MAGIC);
        out.extend_from_slice(payload);
        out.extend_from_slice(b"\r\n");
        out.extend_from_slice(END);
        out.extend_from_slice(b";\r\n");
    }
    out
}

fn small_header(width: usize, height: usize, element_type: &str) -> String {
    format!(
        "Content-Type: application/octet-stream;\r\n     conversions=\"x-CBF_BYTE_OFFSET\"\r\n\
Content-Transfer-Encoding: BINARY\r\nX-Binary-Size: 3\r\n\
X-Binary-Element-Type: \"{element_type}\"\r\nX-Binary-Element-Byte-Order: LITTLE_ENDIAN\r\n\
X-Binary-Number-of-Elements: {}\r\nX-Binary-Size-Fastest-Dimension: {width}\r\n\
X-Binary-Size-Second-Dimension: {height}\r\n\r\n",
        width * height
    )
}

#[test]
fn read_real_image() {
    let mut values = vec![100i32; 8294400];
    values[2880] = 192;
    values[4145760] = 366;
    values[4153200] = 9636;
    let data = stream(&[(HEADER_TEXT, compress(&values))]);
    let mut reader = ByteCursor::new(&data);
    let image = read_image(&mut reader).expect("to read real image");

    assert_eq!(image.width(), 2880);
    assert_eq!(image.height(), 2880);
    let ImageEnum::I32(image) = image else { panic!("expected i32 pixels") };
    let pixels = image.pixels();
    assert_eq!(pixels[0], 100);
    assert_eq!(pixels[1], 100);
    assert_eq!(pixels[2880], 192);
    assert_eq!(pixels[4145760], 366);
    assert_eq!(pixels[4153200], 9636);
    assert_eq!(pixels[8294399], 100);

    assert_eq!(reader.remaining(), b";\r\n");
}

#[test]
fn all_images_in_order() {
    let h8 = small_header(2, 1, "unsigned 8-bit integer");
    let h16 = small_header(1, 2, "signed 16-bit integer");
    let data = stream(&[(&h8, vec![0x05, 0x01]), (&h16, vec![0xff, 0x80, 0x00, 0x01])]);
    let images = read_all_images(&mut ByteCursor::new(&data)).unwrap();
    assert_eq!(images.len(), 2);
    match &images[0] {
        ImageEnum::U8(i) => assert_eq!(i.pixels(), &[5u8, 6][..]),
        _ => panic!("expected u8 pixels"),
    }
    match &images[1] {
        ImageEnum::I16(i) => assert_eq!(i.pixels(), &[-1i16, 255][..]),
        _ => panic!("expected i16 pixels"),
    }
}

#[test]
fn stream_without_section_has_no_image() {
    let data = b"data_nothing\r\n;\r\n".to_vec();
    assert_eq!(read_image(&mut ByteCursor::new(&data)).err(), Some(Error::NoImage));
    assert!(matches!(try_read_next_image(&mut ByteCursor::new(&data)), Ok(None)));
    assert_eq!(read_all_images(&mut ByteCursor::new(&data)).unwrap().len(), 0);
}

#[test]
fn wrong_magic_is_refused() {
    let header = small_header(1, 1, "signed 32-bit integer");
    let mut data = START.to_vec();
    data.extend_from_slice(header.as_bytes());
    data.extend_from_slice(&[0x0c, 0x1a, 0x04, 0xd6, 0x01]);
    assert_eq!(read_image(&mut ByteCursor::new(&data)).err(), Some(Error::UnrecognisedBinaryHeader));
}

#[test]
fn unsupported_payloads_are_refused() {
    let header = small_header(1, 1, "signed 32-bit real IEEE");
    let data = stream(&[(&header, vec![0x01])]);
    assert_eq!(read_image(&mut ByteCursor::new(&data)).err(), Some(Error::UnsupportedPixelFormat));

    let header = small_header(1, 1, "signed 32-bit integer").replace("LITTLE_ENDIAN", "BIG_ENDIAN");
    let data = stream(&[(&header, vec![0x01])]);
    assert_eq!(read_image(&mut ByteCursor::new(&data)).err(), Some(Error::UnsupportedByteOrder));

    let header = small_header(1, 1, "signed 32-bit integer").replace("x-CBF_BYTE_OFFSET", "x-CBF_PACKED");
    let data = stream(&[(&header, vec![0x01])]);
    assert_eq!(read_image(&mut ByteCursor::new(&data)).err(), Some(Error::UnsupportedCompression));

    let header = small_header(1, 1, "signed 32-bit integer").replace("BINARY", "BASE64");
    let data = stream(&[(&header, vec![0x01])]);
    assert_eq!(read_image(&mut ByteCursor::new(&data)).err(), Some(Error::UnsupportedEncoding));

    let header = small_header(1, 1, "signed 32-bit integer").replace("octet-stream", "x-frame");
    let data = stream(&[(&header, vec![0x01])]);
    assert_eq!(read_image(&mut ByteCursor::new(&data)).err(), Some(Error::UnsupportedContentType));
}

#[test]
fn missing_dimension_is_refused() {
    let header = small_header(1, 1, "signed 32-bit integer").replace("X-Binary-Size-Second-Dimension: 1\r\n", "");
    let data = stream(&[(&header, vec![0x01])]);
    assert_eq!(read_image(&mut ByteCursor::new(&data)).err(), Some(Error::MissingDimension));
}

#[test]
fn truncated_payload_is_an_io_error() {
    let header = small_header(2, 2, "signed 32-bit integer");
    let mut data = START.to_vec();
    data.extend_from_slice(header.as_bytes());
    data.extend_from_slice(&MAGIC);
    data.extend_from_slice(&[0x01, 0x01]);
    assert_eq!(
        read_image(&mut ByteCursor::new(&data)).err(),
        Some(Error::IO(cbf_rs::stream::IoError::UnexpectedEof))
    );
}

#[test]
fn coordinates() {
    assert_eq!(5usize.index(3, 2), Some(5));
    assert_eq!(6usize.index(3, 2), None);
    assert_eq!((0isize, 0isize).index(3, 3), Some(4));
    assert_eq!((-1isize, -1isize).index(3, 3), Some(0));
    assert_eq!((1isize, 1isize).index(3, 3), Some(8));
    assert_eq!((2isize, 0isize).index(3, 3), None);
    assert_eq!((0isize, -2isize).index(3, 3), None);
    let image = Image::new(2, 2, vec![1u8, 2, 3, 4]);
    assert_eq!(image.get_pixel((0isize, 0isize)), Some(&4));
    assert_eq!(image.get_pixel((-1isize, -1isize)), Some(&1));
    assert_eq!(image.get_pixel((1isize, 0isize)), None);
    let short = Image::new(2, 2, vec![1u8]);
    assert_eq!(short.get_pixel(3usize), None);
}

#[test]
fn image_from_pixels() {
    let image = ImageEnum::from_pixels(3, 1, Pixels::U16(vec![1, 2, 3]));
    assert_eq!((image.width(), image.height()), (3, 1));
}

#[test]
fn smallest_and_largest() {
    assert_eq!(min_max(&[3i32, -7, 12, 0]), Some((-7, 12)));
    assert_eq!(min_max::<u8>(&[]), None);
}

#[test]
fn grey_levels_into_rgba() {
    let mut buffer = [9u8; 10];
    write_to_pixel_buffer(&[0, 200, 7], &mut buffer);
    assert_eq!(buffer, [255, 255, 255, 255, 55, 55, 55, 255, 9, 9]);
}

#[test]
fn no_section_leaves_the_stream_at_its_end() {
    let data = b"data_nothing\r\n;\r\n".to_vec();
    let mut reader = ByteCursor::new(&data);
    assert_eq!(read_image(&mut reader).err(), Some(Error::NoImage));
    assert_eq!(reader.position(), data.len());
}
