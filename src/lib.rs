pub mod analysis;
pub mod average;
pub mod byte_offset;
pub mod from_bytes;
pub mod headers;
pub mod image;
pub mod metadata;
pub mod render;
pub mod stream;
pub mod text;

use vstd::prelude::*;

use crate::byte_offset::{decode, read_byte_offset, values};
use crate::from_bytes::FromBytes;
use crate::headers::{collect_fields, header_block, LF};
use crate::image::{ImageEnum, Pixels};
use crate::metadata::{
    metadata_of, read_metadata, ByteOrder, Conversion, ElementType, Encoding, Metadata,
    MetadataModel,
};
use crate::stream::{ByteCursor, IoError};
use crate::text::{chars_of, same_text};

verus! {

/// Why an image could not be decoded.
#[derive(Debug, Clone, Copy, PartialEq, Eq)]
pub enum Error {
    /// The header block is unreadable or its values are wrong.
    Metadata(metadata::Error),
    /// The stream ended early, or header text is not UTF-8.
    IO(IoError),
    /// No further binary section: the stream is exhausted, which is no failure.
    NoImage,
    UnsupportedCompression,
    UnsupportedByteOrder,
    UnsupportedPixelFormat,
    UnsupportedContentType,
    UnsupportedEncoding,
    UnrecognisedBinaryHeader,
    MissingDimension,
}

/// The line that opens a binary section: `--CIF-BINARY-FORMAT-SECTION--` and CRLF.
pub open spec fn section_start() -> Seq<u8> {
    seq![0x2du8, 0x2du8, 0x43u8, 0x49u8, 0x46u8, 0x2du8, 0x42u8, 0x49u8, 0x4eu8, 0x41u8, 0x52u8, 0x59u8, 0x2du8, 0x46u8, 0x4fu8, 0x52u8, 0x4du8, 0x41u8, 0x54u8, 0x2du8, 0x53u8, 0x45u8, 0x43u8, 0x54u8, 0x49u8, 0x4fu8, 0x4eu8, 0x2du8, 0x2du8, 0x0du8, 0x0au8]
}

/// The line that closes a binary section: `--CIF-BINARY-FORMAT-SECTION----` and CRLF.
pub open spec fn section_end() -> Seq<u8> {
    seq![0x2du8, 0x2du8, 0x43u8, 0x49u8, 0x46u8, 0x2du8, 0x42u8, 0x49u8, 0x4eu8, 0x41u8, 0x52u8, 0x59u8, 0x2du8, 0x46u8, 0x4fu8, 0x52u8, 0x4du8, 0x41u8, 0x54u8, 0x2du8, 0x53u8, 0x45u8, 0x43u8, 0x54u8, 0x49u8, 0x4fu8, 0x4eu8, 0x2du8, 0x2du8, 0x2du8, 0x2du8, 0x0du8, 0x0au8]
}

/// The four bytes that open the binary data of a section.
pub open spec fn binary_magic() -> Seq<u8> {
    seq![0x0cu8, 0x1au8, 0x04u8, 0xd5u8]
}

/// Where the line that starts at `from` ends: after its LF, or at the end of `s`.
pub open spec fn line_end(s: Seq<u8>, from: int) -> int
    decreases s.len() - from,
{
    if from < 0 || from >= s.len() {
        s.len() as int
    } else if s[from] == LF {
        from + 1
    } else {
        line_end(s, from + 1)
    }
}

/// Reading `s` line by line from `from`: where the first line equal to `needle` ends, or
/// nothing when the stream ends first.
pub open spec fn scan_to(s: Seq<u8>, from: int, needle: Seq<u8>) -> Option<int>
    decreases s.len() - from,
{
    if from < 0 || from >= s.len() {
        None
    } else {
        let e = line_end(s, from);
        if e <= from || e > s.len() {
            None
        } else if s.subrange(from, e) == needle {
            Some(e)
        } else {
            scan_to(s, e, needle)
        }
    }
}

/// Where a scan for `needle` from the front of `s` leaves the stream.
pub open spec fn scan_stop(s: Seq<u8>, needle: Seq<u8>) -> int {
    match scan_to(s, 0, needle) {
        Some(e) => e,
        None => s.len() as int,
    }
}

/// The sample width in bytes and signedness of an element type the decoder supports.
pub open spec fn sample_format(t: ElementType) -> Option<(nat, bool)> {
    match t {
        ElementType::Unsigned8bitInteger => Some((1, false)),
        ElementType::Signed8bitInteger => Some((1, true)),
        ElementType::Unsigned16bitInteger => Some((2, false)),
        ElementType::Signed16bitInteger => Some((2, true)),
        ElementType::Unsigned32bitInteger => Some((4, false)),
        ElementType::Signed32bitInteger => Some((4, true)),
        _ => None,
    }
}

/// Whether the payload that `m` describes can be decoded: the element type to decode, or why not.
pub open spec fn payload_format(m: MetadataModel) -> Result<ElementType, Error> {
    if m.byte_order != ByteOrder::LittleEndian {
        Err(Error::UnsupportedByteOrder)
    } else if m.mime_type != "application"@ || m.subtype != "octet-stream"@ {
        Err(Error::UnsupportedContentType)
    } else if m.encoding != Encoding::Binary {
        Err(Error::UnsupportedEncoding)
    } else if m.conversion != Some(Conversion::ByteOffset) {
        Err(Error::UnsupportedCompression)
    } else if sample_format(m.element_type) is None {
        Err(Error::UnsupportedPixelFormat)
    } else {
        Ok(m.element_type)
    }
}

/// The element type and the integers a sample buffer holds.
pub open spec fn pixels_view(p: Pixels) -> (Option<ElementType>, Seq<int>) {
    match p {
        Pixels::U8(v) => (Some(ElementType::Unsigned8bitInteger), values(v@)),
        Pixels::I8(v) => (Some(ElementType::Signed8bitInteger), values(v@)),
        Pixels::U16(v) => (Some(ElementType::Unsigned16bitInteger), values(v@)),
        Pixels::I16(v) => (Some(ElementType::Signed16bitInteger), values(v@)),
        Pixels::U32(v) => (Some(ElementType::Unsigned32bitInteger), values(v@)),
        Pixels::I32(v) => (Some(ElementType::Signed32bitInteger), values(v@)),
        Pixels::U64(v) => (None, values(v@)),
        Pixels::I64(v) => (None, values(v@)),
    }
}

/// The element type, width, height and sample integers of an image.
pub open spec fn image_view(i: ImageEnum) -> (Option<ElementType>, usize, usize, Seq<int>) {
    match i {
        ImageEnum::U8(i) => (Some(ElementType::Unsigned8bitInteger), i.width, i.height, values(i.samples())),
        ImageEnum::I8(i) => (Some(ElementType::Signed8bitInteger), i.width, i.height, values(i.samples())),
        ImageEnum::U16(i) => (Some(ElementType::Unsigned16bitInteger), i.width, i.height, values(i.samples())),
        ImageEnum::I16(i) => (Some(ElementType::Signed16bitInteger), i.width, i.height, values(i.samples())),
        ImageEnum::U32(i) => (Some(ElementType::Unsigned32bitInteger), i.width, i.height, values(i.samples())),
        ImageEnum::I32(i) => (Some(ElementType::Signed32bitInteger), i.width, i.height, values(i.samples())),
        ImageEnum::U64(i) => (None, i.width, i.height, values(i.samples())),
        ImageEnum::I64(i) => (None, i.width, i.height, values(i.samples())),
    }
}

/// `p` holds samples of element type `t` with the integers `vs`.
pub open spec fn pixels_are(p: Pixels, t: ElementType, vs: Seq<int>) -> bool {
    pixels_view(p) == (Some(t), vs)
}

/// `i` is the image `img`: element type, width, height and sample integers.
pub open spec fn image_is(i: ImageEnum, img: (ElementType, usize, usize, Seq<int>)) -> bool {
    image_view(i) == (Some(img.0), img.1, img.2, img.3)
}

/// The samples of the payload at the front of `s`, decoded as `m` describes, and the bytes
/// they take.
pub open spec fn payload(s: Seq<u8>, m: MetadataModel) -> Result<(ElementType, Seq<int>, nat), Error> {
    match payload_format(m) {
        Err(e) => Err(e),
        Ok(t) => {
            let (w, signed) = sample_format(t).unwrap();
            match decode(s, m.element_count as nat, 0, w, signed) {
                Some((vs, k)) => Ok((t, vs, k)),
                None => Err(Error::IO(IoError::UnexpectedEof)),
            }
        },
    }
}

#[verifier::opaque]
/// The next image of `s`: its element type, width, height and samples, and where the stream
/// stands after it; or why there is none.
pub open spec fn next_image(s: Seq<u8>) -> Result<((ElementType, usize, usize, Seq<int>), int), Error> {
    match scan_to(s, 0, section_start()) {
        None => Err(Error::NoImage),
        Some(p1) => {
            let s1 = s.skip(p1);
            match header_block(s1) {
                Err(e) => Err(Error::Metadata(metadata::Error::Reading(e))),
                Ok((fields, k1)) => match metadata_of(collect_fields(fields)) {
                    Err(e) => Err(Error::Metadata(metadata::Error::Parsing(e))),
                    Ok(m) => {
                        let s2 = s1.skip(k1 as int);
                        if s2.len() < 4 {
                            Err(Error::IO(IoError::UnexpectedEof))
                        } else if s2.take(4) != binary_magic() {
                            Err(Error::UnrecognisedBinaryHeader)
                        } else {
                            match payload(s2.skip(4), m) {
                                Err(e) => Err(e),
                                Ok((t, vs, k3)) => {
                                    let s3 = s2.skip(4 + k3 as int);
                                    let end = scan_stop(s3, section_end());
                                    match (m.width, m.height) {
                                        (Some(w), Some(h)) => Ok(
                                            (
                                                (t, w, h, vs),
                                                p1 + k1 + 4 + k3 + end,
                                            ),
                                        ),
                                        _ => Err(Error::MissingDimension),
                                    }
                                },
                            }
                        }
                    },
                },
            }
        },
    }
}

/// All images of `s` in order, or the first failure other than running out of sections.
pub open spec fn all_images(s: Seq<u8>) -> Result<Seq<(ElementType, usize, usize, Seq<int>)>, Error>
    decreases s.len(),
{
    match next_image(s) {
        Err(Error::NoImage) => Ok(Seq::empty()),
        Err(e) => Err(e),
        Ok((img, k)) => if 0 < k <= s.len() {
            match all_images(s.skip(k)) {
                Ok(rest) => Ok(seq![img] + rest),
                Err(e) => Err(e),
            }
        } else {
            Err(Error::NoImage)
        },
    }
}

pub enum Reached {
    Needle,
    End,
}

/// Reads lines until one equals `needle`, or the stream ends.
pub fn progress_reader_to(reader: &mut ByteCursor, needle: &[u8]) -> (r: Reached)
    requires
        old(reader).wf(),
    ensures
        final(reader).wf(),
        final(reader).data() == old(reader).data(),
        final(reader).pos() == old(reader).pos() + scan_stop(old(reader).rest(), needle@),
        r is Needle <==> scan_to(old(reader).rest(), 0, needle@) is Some,
{
    let s = reader.remaining();
    let n = s.len();
    let mut from: usize = 0;
    let ghost p0 = reader.pos();
    while from < n
        invariant
            n == s@.len(),
            s@ == old(reader).rest(),
            reader.wf(),
            reader.data() == old(reader).data(),
            reader.pos() == p0,
            p0 == old(reader).pos(),
            from <= n,
            scan_to(s@, 0, needle@) == scan_to(s@, from as int, needle@),
        decreases n - from,
    {
        let mut e: usize = from;
        while e < n && s[e] != LF
            invariant
                from <= e <= n,
                n == s@.len(),
                line_end(s@, from as int) == line_end(s@, e as int),
            decreases n - e,
        {
            e = e + 1;
        }
        if e < n {
            e = e + 1;
        }
        let line = vstd::slice::slice_subrange(s, from, e);
        if slices_equal(line, needle) {
            reader.advance(e);
            return Reached::Needle;
        }
        from = e;
    }
    reader.advance(n);
    Reached::End
}

fn slices_equal(a: &[u8], b: &[u8]) -> (r: bool)
    ensures
        r == (a@ == b@),
{
    if a.len() != b.len() {
        return false;
    }
    let mut i: usize = 0;
    while i < a.len()
        invariant
            a@.len() == b@.len(),
            i <= a@.len(),
            forall|j: int| 0 <= j < i ==> a@[j] == b@[j],
        decreases a@.len() - i,
    {
        if a[i] != b[i] {
            return false;
        }
        i = i + 1;
    }
    proof {
        assert(a@ =~= b@);
    }
    true
}

proof fn lemma_scan_advances(s: Seq<u8>, from: int, needle: Seq<u8>)
    ensures
        scan_to(s, from, needle) matches Some(e) ==> from < e <= s.len(),
    decreases s.len() - from,
{
    if 0 <= from < s.len() {
        let e = line_end(s, from);
        if from < e <= s.len() && s.subrange(from, e) != needle {
            lemma_scan_advances(s, e, needle);
        }
    }
}

/// Skips to the line after the next section start; `NoImage` when there is none.
fn progress_reader_to_cbf_start(reader: &mut ByteCursor) -> (r: Result<(), Error>)
    requires
        old(reader).wf(),
    ensures
        final(reader).wf(),
        final(reader).data() == old(reader).data(),
        final(reader).pos() == old(reader).pos() + scan_stop(old(reader).rest(), section_start()),
        r is Ok <==> scan_to(old(reader).rest(), 0, section_start()) is Some,
        r is Err ==> r == Err::<(), Error>(Error::NoImage),
{
    let needle: [u8; 31] = [0x2d, 0x2d, 0x43, 0x49, 0x46, 0x2d, 0x42, 0x49, 0x4e, 0x41, 0x52, 0x59, 0x2d, 0x46, 0x4f, 0x52, 0x4d, 0x41, 0x54, 0x2d, 0x53, 0x45, 0x43, 0x54, 0x49, 0x4f, 0x4e, 0x2d, 0x2d, 0x0d, 0x0a];
    proof {
        assert(needle@ =~= section_start());
    }
    match progress_reader_to(reader, &needle) {
        Reached::Needle => Ok(()),
        Reached::End => Err(Error::NoImage),
    }
}

/// Skips past the next section end, if there is one; its absence is no error.
fn progress_reader_to_cbf_end(reader: &mut ByteCursor)
    requires
        old(reader).wf(),
    ensures
        final(reader).wf(),
        final(reader).data() == old(reader).data(),
        final(reader).pos() == old(reader).pos() + scan_stop(old(reader).rest(), section_end()),
{
    let needle: [u8; 33] = [0x2d, 0x2d, 0x43, 0x49, 0x46, 0x2d, 0x42, 0x49, 0x4e, 0x41, 0x52, 0x59, 0x2d, 0x46, 0x4f, 0x52, 0x4d, 0x41, 0x54, 0x2d, 0x53, 0x45, 0x43, 0x54, 0x49, 0x4f, 0x4e, 0x2d, 0x2d, 0x2d, 0x2d, 0x0d, 0x0a];
    proof {
        assert(needle@ =~= section_end());
    }
    progress_reader_to(reader, &needle);
}

/// Checks the four bytes that open binary data.
fn read_binary_header(reader: &mut ByteCursor) -> (r: Result<(), Error>)
    requires
        old(reader).wf(),
    ensures
        final(reader).wf(),
        final(reader).data() == old(reader).data(),
        old(reader).rest().len() < 4 ==> r == Err::<(), Error>(Error::IO(IoError::UnexpectedEof)),
        old(reader).rest().len() >= 4 ==> final(reader).pos() == old(reader).pos() + 4 && if old(
            reader,
        ).rest().take(4) == binary_magic() {
            r is Ok
        } else {
            r == Err::<(), Error>(Error::UnrecognisedBinaryHeader)
        },
{
    let header = match reader.take(4) {
        Some(h) => h,
        None => {
            return Err(Error::IO(IoError::UnexpectedEof));
        },
    };
    if header[0] == 0x0c && header[1] == 0x1a && header[2] == 0x04 && header[3] == 0xd5 {
        proof {
            assert(header@ =~= binary_magic());
        }
        Ok(())
    } else {
        proof {
            assert(header@ != binary_magic()) by {
                if header@ == binary_magic() {
                    assert(header@[0] == 0x0c && header@[1] == 0x1a && header@[2] == 0x04
                        && header@[3] == 0xd5);
                }
            }
        }
        Err(Error::UnrecognisedBinaryHeader)
    }
}

/// Decodes `count` samples from the front of `reader`.
fn decode_samples<P: FromBytes>(reader: &mut ByteCursor, count: usize) -> (r: Result<
    Vec<P>,
    IoError,
>)
    requires
        old(reader).wf(),
    ensures
        final(reader).wf(),
        final(reader).data() == old(reader).data(),
        match decode(old(reader).rest(), count as nat, 0, P::width(), P::signed()) {
            Some((vs, k)) => r matches Ok(v) && values(v@) == vs && final(reader).pos() == old(reader).pos() + k,
            None => r == Err::<Vec<P>, IoError>(IoError::UnexpectedEof),
        },
{
    let zero = P::from_1_bytes([0]);
    let mut pixels = vec![zero; count];
    match read_byte_offset(reader, pixels.as_mut_slice()) {
        Ok(()) => Ok(pixels),
        Err(e) => Err(e),
    }
}

fn is_text(s: &String, t: &str) -> (r: bool)
    ensures
        r == (s@ == t@),
{
    let v = chars_of(s.as_str());
    same_text(v.as_slice(), t)
}

/// Decodes the payload that `metadata` describes from the front of `reader`.
fn read_pixels(reader: &mut ByteCursor, metadata: &Metadata) -> (r: Result<Pixels, Error>)
    requires
        old(reader).wf(),
    ensures
        final(reader).wf(),
        final(reader).data() == old(reader).data(),
        match payload(old(reader).rest(), metadata@) {
            Ok((t, vs, k)) => r matches Ok(p) && pixels_are(p, t, vs) && final(reader).pos() == old(reader).pos() + k,
            Err(e) => r == Err::<Pixels, Error>(e),
        },
        payload_format(metadata@) is Err ==> final(reader).pos() == old(reader).pos(),
{
    if !matches!(metadata.byte_order, ByteOrder::LittleEndian) {
        return Err(Error::UnsupportedByteOrder);
    }
    if !(is_text(&metadata.content_type.mime_type, "application") && is_text(
        &metadata.content_type.subtype,
        "octet-stream",
    )) {
        return Err(Error::UnsupportedContentType);
    }
    if !matches!(metadata.content_transfer_encoding.encoding, Encoding::Binary) {
        return Err(Error::UnsupportedEncoding);
    }
    if !matches!(metadata.content_type.conversion, Some(Conversion::ByteOffset)) {
        return Err(Error::UnsupportedCompression);
    }
    let count = metadata.element_count;
    let pixels = match metadata.element_type {
        ElementType::Unsigned8bitInteger => match decode_samples::<u8>(reader, count) {
            Ok(v) => Pixels::U8(v),
            Err(e) => {
                return Err(Error::IO(e));
            },
        },
        ElementType::Signed8bitInteger => match decode_samples::<i8>(reader, count) {
            Ok(v) => Pixels::I8(v),
            Err(e) => {
                return Err(Error::IO(e));
            },
        },
        ElementType::Unsigned16bitInteger => match decode_samples::<u16>(reader, count) {
            Ok(v) => Pixels::U16(v),
            Err(e) => {
                return Err(Error::IO(e));
            },
        },
        ElementType::Signed16bitInteger => match decode_samples::<i16>(reader, count) {
            Ok(v) => Pixels::I16(v),
            Err(e) => {
                return Err(Error::IO(e));
            },
        },
        ElementType::Unsigned32bitInteger => match decode_samples::<u32>(reader, count) {
            Ok(v) => Pixels::U32(v),
            Err(e) => {
                return Err(Error::IO(e));
            },
        },
        ElementType::Signed32bitInteger => match decode_samples::<i32>(reader, count) {
            Ok(v) => Pixels::I32(v),
            Err(e) => {
                return Err(Error::IO(e));
            },
        },
        _ => {
            return Err(Error::UnsupportedPixelFormat);
        },
    };
    Ok(pixels)
}

/// Decodes the next image of the stream.
pub fn read_image(reader: &mut ByteCursor) -> (r: Result<ImageEnum, Error>)
    requires
        old(reader).wf(),
    ensures
        final(reader).wf(),
        final(reader).data() == old(reader).data(),
        match next_image(old(reader).rest()) {
            Ok((img, k)) => r matches Ok(i) && image_is(i, img) && final(reader).pos() == old(reader).pos() + k,
            Err(e) => r == Err::<ImageEnum, Error>(e),
        },
        next_image(old(reader).rest()) == Err::<((ElementType, usize, usize, Seq<int>), int), Error>(
            Error::NoImage,
        ) ==> final(reader).pos() == old(reader).data().len(),
{
    let ghost s = reader.rest();
    let ghost p0 = reader.pos();
    proof {
        reveal(next_image);
    }
    match progress_reader_to_cbf_start(reader) {
        Ok(()) => {},
        Err(e) => {
            return Err(e);
        },
    }
    let ghost p1 = scan_to(s, 0, section_start()).unwrap();
    proof {
        lemma_scan_advances(s, 0, section_start());
        assert(reader.rest() =~= s.skip(p1));
    }
    let metadata = match read_metadata(reader) {
        Ok(m) => m,
        Err(e) => {
            return Err(Error::Metadata(e));
        },
    };
    let ghost k1 = header_block(s.skip(p1)).unwrap().1;
    proof {
        assert(reader.rest() =~= s.skip(p1).skip(k1 as int));
    }
    match read_binary_header(reader) {
        Ok(()) => {},
        Err(e) => {
            return Err(e);
        },
    }
    proof {
        assert(reader.rest() =~= s.skip(p1).skip(k1 as int).skip(4));
    }
    let pixels = match read_pixels(reader, &metadata) {
        Ok(p) => p,
        Err(e) => {
            return Err(e);
        },
    };
    let ghost k3 = payload(s.skip(p1).skip(k1 as int).skip(4), metadata@).unwrap().2;
    proof {
        assert(reader.rest() =~= s.skip(p1).skip(k1 as int).skip(4 + k3 as int));
    }
    progress_reader_to_cbf_end(reader);
    let width = match metadata.width {
        Some(w) => w,
        None => {
            return Err(Error::MissingDimension);
        },
    };
    let height = match metadata.height {
        Some(h) => h,
        None => {
            return Err(Error::MissingDimension);
        },
    };
    Ok(ImageEnum::from_pixels(width, height, pixels))
}

/// Decodes the next image, or gives nothing when no section is left.
pub fn try_read_next_image(reader: &mut ByteCursor) -> (r: Result<Option<ImageEnum>, Error>)
    requires
        old(reader).wf(),
    ensures
        final(reader).wf(),
        final(reader).data() == old(reader).data(),
        match next_image(old(reader).rest()) {
            Ok((img, k)) => r matches Ok(Some(i)) && image_is(i, img) && final(reader).pos() == old(reader).pos() + k,
            Err(Error::NoImage) => r matches Ok(None),
            Err(e) => r == Err::<Option<ImageEnum>, Error>(e),
        },
        r matches Ok(None) ==> final(reader).pos() == old(reader).data().len(),
{
    match read_image(reader) {
        Ok(image) => Ok(Some(image)),
        Err(Error::NoImage) => Ok(None),
        Err(error) => Err(error),
    }
}

/// Decodes every image of the stream, in order, until no section is left.
pub fn read_all_images(reader: &mut ByteCursor) -> (r: Result<Vec<ImageEnum>, Error>)
    requires
        old(reader).wf(),
    ensures
        final(reader).wf(),
        final(reader).data() == old(reader).data(),
        match all_images(old(reader).rest()) {
            Ok(imgs) => r matches Ok(v) && v@.len() == imgs.len() && forall|i: int|
                0 <= i < imgs.len() ==> image_is(#[trigger] v@[i], imgs[i]),
            Err(e) => r == Err::<Vec<ImageEnum>, Error>(e),
        },
{
    let ghost s0 = reader.rest();
    let mut images: Vec<ImageEnum> = Vec::new();
    let ghost mut done: Seq<(ElementType, usize, usize, Seq<int>)> = Seq::empty();
    loop
        invariant
            reader.wf(),
            reader.data() == old(reader).data(),
            s0 == old(reader).rest(),
            images@.len() == done.len(),
            forall|i: int| 0 <= i < done.len() ==> image_is(#[trigger] images@[i], done[i]),
            all_images(s0) == match all_images(reader.rest()) {
                Ok(more) => Ok::<Seq<(ElementType, usize, usize, Seq<int>)>, Error>(done + more),
                Err(e) => Err(e),
            },
        decreases reader.rest().len(),
    {
        let ghost before = reader.rest();
        match try_read_next_image(reader) {
            Ok(Some(image)) => {
                proof {
                    let (img, k) = next_image(before).unwrap();
                    lemma_next_image_advances(before);
                    assert(reader.rest() =~= before.skip(k));
                    match all_images(reader.rest()) {
                        Ok(more) => {
                            assert(done + (seq![img] + more) =~= done.push(img) + more);
                        },
                        Err(_) => {},
                    }
                    done = done.push(img);
                }
                images.push(image);
            },
            Ok(None) => {
                proof {
                    assert(done + Seq::<(ElementType, usize, usize, Seq<int>)>::empty() =~= done);
                }
                return Ok(images);
            },
            Err(e) => {
                return Err(e);
            },
        }
    }
}

proof fn lemma_next_image_advances(s: Seq<u8>)
    ensures
        next_image(s) matches Ok((_, k)) ==> 0 < k <= s.len(),
{
    reveal(next_image);
    lemma_scan_advances(s, 0, section_start());
    match scan_to(s, 0, section_start()) {
        Some(p1) => {
            let s1 = s.skip(p1);
            match header_block(s1) {
                Ok((fields, k1)) => {
                    lemma_header_block_len(s1);
                    let s2 = s1.skip(k1 as int);
                    if s2.len() >= 4 {
                        match metadata_of(collect_fields(fields)) {
                            Ok(m) => {
                                match payload(s2.skip(4), m) {
                                    Ok((t, vs, k3)) => {
                                        let (w, signed) = sample_format(t).unwrap();
                                        crate::byte_offset::lemma_decode_len(
                                            s2.skip(4),
                                            m.element_count as nat,
                                            0,
                                            w,
                                            signed,
                                        );
                                        let s3 = s2.skip(4 + k3 as int);
                                        lemma_scan_advances(s3, 0, section_end());
                                    },
                                    Err(_) => {},
                                }
                            },
                            Err(_) => {},
                        }
                    }
                },
                Err(_) => {},
            }
        },
        None => {},
    }
}

proof fn lemma_header_block_len(s: Seq<u8>)
    ensures
        header_block(s) matches Ok((_, k)) ==> k <= s.len(),
    decreases s.len(),
{
    if s.len() > 0 && !(s.len() >= 2 && s[0] == headers::CR && s[1] == LF) {
        match headers::field_rule(s) {
            headers::Rule::Parsed((_, _), k) => {
                if 0 < k <= s.len() {
                    lemma_header_block_len(s.skip(k as int));
                }
            },
            _ => {},
        }
    }
}

} // verus!
