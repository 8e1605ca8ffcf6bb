use cbf_rs::byte_offset::{read_byte_offset, ByteOffsetReader};
use cbf_rs::stream::{ByteCursor, IoError};

const SAMPLES: usize = 8294400;
const STREAM_LEN: usize = 10161580;

/// A compressed frame of `SAMPLES` 32-bit samples, all 100 but three, taking `STREAM_LEN` bytes:
/// the zero deltas at the front are written in the two-byte escape form until the length is met.
fn checkpoint_frame() -> Vec<u8> {
    let spikes = [(2880usize, 192i32), (4145760, 366), (4153200, 9636)];
    let mut values = vec![100i32; SAMPLES];
    for (i, v) in spikes {
        values[i] = v;
    }
    let mut deltas = Vec::with_capacity(SAMPLES);
    let mut base = 0i32;
    for v in &values {
        deltas.push(v - base);
        base = *v;
    }
    let short: usize = deltas.iter().map(|d| if (-127..=127).contains(d) { 1 } else { 3 }).sum();
    let mut padding = (STREAM_LEN - short) / 2;
    let mut out = Vec::with_capacity(STREAM_LEN);
    for d in deltas {
        if (-127..=127).contains(&d) && !(d == 0 && padding > 0) {
            out.push(d as i8 as u8);
        } else {
            if d == 0 {
                padding -= 1;
            }
            out.push(0x80);
            out.extend_from_slice(&(d as i16).to_le_bytes());
        }
    }
    assert_eq!(out.len(), STREAM_LEN);
    out
}

#[test]
fn test_real_binary() {
    let data = checkpoint_frame();
    let mut reader = ByteCursor::new(&data);
    let mut buf = vec![0i32; SAMPLES];
    read_byte_offset(&mut reader, &mut buf).expect("to successfully read");
    assert_eq!(buf[0], 100);
    assert_eq!(buf[1], 100);
    assert_eq!(buf[2880], 192);
    assert_eq!(buf[4145760], 366);
    assert_eq!(buf[4153200], 9636);
    assert_eq!(buf[8294399], 100);
    assert_eq!(reader.position(), 10161580);
}

#[test]
fn read_reader_as_8_bits() {
    let data = [0x42];
    let mut byte_offset_reader = ByteOffsetReader::<i32>::new(ByteCursor::new(&data));
    assert_eq!(byte_offset_reader.read_value().expect("to successfully read"), 0x42);
}

#[test]
fn read_reader_as_16_bits() {
    let data = [0x80, 0x20, 0x04];
    let mut byte_offset_reader = ByteOffsetReader::<i32>::new(ByteCursor::new(&data));
    assert_eq!(byte_offset_reader.read_value().expect("to successfully read"), 0x0420);
}

#[test]
fn read_reader_as_32_bits() {
    let data = [0x80, 0x00, 0x80, 0x20, 0x04, 0x20, 0x04];
    let mut byte_offset_reader = ByteOffsetReader::<i32>::new(ByteCursor::new(&data));
    assert_eq!(byte_offset_reader.read_value().expect("to successfully read"), 0x04200420);
}

#[test]
fn read_reader_as_64_bits() {
    let data = [
        0x80, 0x00, 0x80, 0x00, 0x00, 0x00, 0x80, 0x20, 0x04, 0x20, 0x04, 0x20, 0x04, 0x20, 0x04,
    ];
    let mut byte_offset_reader = ByteOffsetReader::<i64>::new(ByteCursor::new(&data));
    assert_eq!(
        byte_offset_reader.read_value().expect("to successfully read"),
        0x0420042004200420
    );
}

#[test]
fn combine_with_base_value() {
    let data = [0x42, 0x24];
    let mut byte_offset_reader = ByteOffsetReader::<i32>::new(ByteCursor::new(&data));
    assert_eq!(byte_offset_reader.read_value().expect("to successfully read"), 0x42);
    assert_eq!(byte_offset_reader.read_value().expect("to successfully read"), 0x66);
}

#[test]
fn negative_one_byte_delta_is_sign_extended() {
    let data = [0x10, 0xff];
    let mut reader = ByteCursor::new(&data);
    let mut buf = vec![0i16; 2];
    read_byte_offset(&mut reader, &mut buf).unwrap();
    assert_eq!(buf, vec![16, 15]);
}

#[test]
fn unsigned_samples_zero_extend_and_wrap() {
    let data = [0xff, 0x02];
    let mut reader = ByteCursor::new(&data);
    let mut buf = vec![0u8; 2];
    read_byte_offset(&mut reader, &mut buf).unwrap();
    assert_eq!(buf, vec![255, 1]);
}

#[test]
fn narrow_samples_keep_low_bytes_of_wide_deltas() {
    let data = [0x80, 0x34, 0x12];
    let mut reader = ByteCursor::new(&data);
    let mut buf = vec![0u8; 1];
    read_byte_offset(&mut reader, &mut buf).unwrap();
    assert_eq!(buf, vec![0x34]);
}

#[test]
fn short_stream_is_an_eof_error() {
    let data = [0x01, 0x80, 0x00];
    let mut reader = ByteCursor::new(&data);
    let mut buf = vec![0i32; 2];
    assert_eq!(read_byte_offset(&mut reader, &mut buf), Err(IoError::UnexpectedEof));
}

#[test]
fn empty_buffer_reads_nothing() {
    let data = [0x01];
    let mut reader = ByteCursor::new(&data);
    let mut buf: Vec<i32> = Vec::new();
    read_byte_offset(&mut reader, &mut buf).unwrap();
    assert_eq!(reader.position(), 0);
}

#[test]
fn base_carries_over_between_reads() {
    let data = [0x05, 0x01, 0x02];
    let mut byte_offset_reader = ByteOffsetReader::<i32>::new(ByteCursor::new(&data));
    let mut buf = vec![0i32; 2];
    byte_offset_reader.read(&mut buf).unwrap();
    assert_eq!(buf, vec![5, 6]);
    assert_eq!(byte_offset_reader.read_value().unwrap(), 8);
}
