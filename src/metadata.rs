use vstd::prelude::*;

use std::str::FromStr;

use crate::headers::{self, lookup_ignore_case, Field, Headers};
use crate::stream::ByteCursor;
use crate::text::{
    chars_of, find_char, has_prefix, index_of, lower_of, lowercase, same_text, starts_with,
    string_of, trim, trimmed,
};

verus! {

/// Which header value is missing or malformed.
#[derive(Debug, Clone, Copy, PartialEq, Eq)]
pub enum ErrorKind {
    InvalidContentType,
    InvalidConversion,
    InvalidContentTransferEncoding,
    InvalidEncoding,
    InvalidCharset,
    InvalidSize,
    InvalidPadding,
    InvalidByteOrder,
    InvalidMd5Digest,
    InvalidElementType,
    InvalidElementCount,
    InvalidWidth,
    InvalidHeight,
    InvalidDepth,
    MissingContentType,
    MissingContentTransferEncoding,
    MissingSize,
    MissingByteOrder,
    MissingElementType,
    MissingElementCount,
}

/// Why metadata could not be built.
#[derive(Debug, Clone, Copy, PartialEq, Eq)]
pub enum Error {
    /// A header value is missing or malformed.
    Parsing(ErrorKind),
    /// The header block itself could not be read.
    Reading(headers::Error),
}

#[derive(Debug, Clone, Copy, PartialEq, Eq)]
pub enum PackedKind {
    UncorrelatedSections,
    Flat,
}

#[derive(Debug, Clone, Copy, PartialEq, Eq)]
pub enum Conversion {
    Packed(Option<PackedKind>),
    Canonical,
    ByteOffset,
    BackgroundOffsetDelta,
}

#[derive(Debug, Clone, Copy, PartialEq, Eq)]
pub enum Encoding {
    Base8,
    Base10,
    Base16,
    Base32K,
    Base64,
    Binary,
    QuotedPrintable,
}

#[derive(Debug, Clone, Copy, PartialEq, Eq)]
pub enum Charset {
    UsAscii,
    UTF8,
    UTF16,
}

#[derive(Debug, Clone, Copy, PartialEq, Eq)]
pub enum ByteOrder {
    LittleEndian,
    BigEndian,
}

#[derive(Debug, Clone, Copy, PartialEq, Eq)]
pub enum ElementType {
    Unsigned1bitInteger,
    Unsigned8bitInteger,
    Signed8bitInteger,
    Unsigned16bitInteger,
    Signed16bitInteger,
    Unsigned32bitInteger,
    Signed32bitInteger,
    Signed32bitReal,
    Signed64bitReal,
    Signed32bitComplex,
}

/// The conversion a lower-case token names.
pub open spec fn conversion_named(t: Seq<char>) -> Option<Conversion> {
    if t == "x-cbf_packed"@ {
        Some(Conversion::Packed(None))
    } else if t == "x-cbf_canonical"@ {
        Some(Conversion::Canonical)
    } else if t == "x-cbf_byte_offset"@ {
        Some(Conversion::ByteOffset)
    } else if t == "x-cbf_background_offset_delta"@ {
        Some(Conversion::BackgroundOffsetDelta)
    } else {
        None
    }
}

/// The encoding a lower-case token names.
pub open spec fn encoding_named(t: Seq<char>) -> Option<Encoding> {
    if t == "x-base8"@ {
        Some(Encoding::Base8)
    } else if t == "x-base10"@ {
        Some(Encoding::Base10)
    } else if t == "x-base16"@ {
        Some(Encoding::Base16)
    } else if t == "x-base32k"@ {
        Some(Encoding::Base32K)
    } else if t == "base64"@ {
        Some(Encoding::Base64)
    } else if t == "binary"@ {
        Some(Encoding::Binary)
    } else if t == "quoted-printable"@ {
        Some(Encoding::QuotedPrintable)
    } else {
        None
    }
}

/// The character set a lower-case token names.
pub open spec fn charset_named(t: Seq<char>) -> Option<Charset> {
    if t == "us-ascii"@ {
        Some(Charset::UsAscii)
    } else if t == "utf-8"@ {
        Some(Charset::UTF8)
    } else if t == "utf-16"@ {
        Some(Charset::UTF16)
    } else {
        None
    }
}

/// The byte order a lower-case token names.
pub open spec fn byte_order_named(t: Seq<char>) -> Option<ByteOrder> {
    if t == "little_endian"@ {
        Some(ByteOrder::LittleEndian)
    } else if t == "big_endian"@ {
        Some(ByteOrder::BigEndian)
    } else {
        None
    }
}

/// The element type a lower-case token names.
pub open spec fn element_type_named(t: Seq<char>) -> Option<ElementType> {
    if t == "unsigned 1-bit integer"@ {
        Some(ElementType::Unsigned1bitInteger)
    } else if t == "unsigned 8-bit integer"@ {
        Some(ElementType::Unsigned8bitInteger)
    } else if t == "signed 8-bit integer"@ {
        Some(ElementType::Signed8bitInteger)
    } else if t == "unsigned 16-bit integer"@ {
        Some(ElementType::Unsigned16bitInteger)
    } else if t == "signed 16-bit integer"@ {
        Some(ElementType::Signed16bitInteger)
    } else if t == "unsigned 32-bit integer"@ {
        Some(ElementType::Unsigned32bitInteger)
    } else if t == "signed 32-bit integer"@ {
        Some(ElementType::Signed32bitInteger)
    } else if t == "signed 32-bit real ieee"@ {
        Some(ElementType::Signed32bitReal)
    } else if t == "signed 64-bit real ieee"@ {
        Some(ElementType::Signed64bitReal)
    } else if t == "signed 32-bit complex ieee"@ {
        Some(ElementType::Signed32bitComplex)
    } else {
        None
    }
}

fn conversion_of(t: &[char]) -> (r: Option<Conversion>)
    ensures
        r == conversion_named(t@),
{
    if same_text(t, "x-cbf_packed") {
        Some(Conversion::Packed(None))
    } else if same_text(t, "x-cbf_canonical") {
        Some(Conversion::Canonical)
    } else if same_text(t, "x-cbf_byte_offset") {
        Some(Conversion::ByteOffset)
    } else if same_text(t, "x-cbf_background_offset_delta") {
        Some(Conversion::BackgroundOffsetDelta)
    } else {
        None
    }
}

fn encoding_of(t: &[char]) -> (r: Option<Encoding>)
    ensures
        r == encoding_named(t@),
{
    if same_text(t, "x-base8") {
        Some(Encoding::Base8)
    } else if same_text(t, "x-base10") {
        Some(Encoding::Base10)
    } else if same_text(t, "x-base16") {
        Some(Encoding::Base16)
    } else if same_text(t, "x-base32k") {
        Some(Encoding::Base32K)
    } else if same_text(t, "base64") {
        Some(Encoding::Base64)
    } else if same_text(t, "binary") {
        Some(Encoding::Binary)
    } else if same_text(t, "quoted-printable") {
        Some(Encoding::QuotedPrintable)
    } else {
        None
    }
}

fn charset_of(t: &[char]) -> (r: Option<Charset>)
    ensures
        r == charset_named(t@),
{
    if same_text(t, "us-ascii") {
        Some(Charset::UsAscii)
    } else if same_text(t, "utf-8") {
        Some(Charset::UTF8)
    } else if same_text(t, "utf-16") {
        Some(Charset::UTF16)
    } else {
        None
    }
}

fn byte_order_of(t: &[char]) -> (r: Option<ByteOrder>)
    ensures
        r == byte_order_named(t@),
{
    if same_text(t, "little_endian") {
        Some(ByteOrder::LittleEndian)
    } else if same_text(t, "big_endian") {
        Some(ByteOrder::BigEndian)
    } else {
        None
    }
}

fn element_type_of(t: &[char]) -> (r: Option<ElementType>)
    ensures
        r == element_type_named(t@),
{
    if same_text(t, "unsigned 1-bit integer") {
        Some(ElementType::Unsigned1bitInteger)
    } else if same_text(t, "unsigned 8-bit integer") {
        Some(ElementType::Unsigned8bitInteger)
    } else if same_text(t, "signed 8-bit integer") {
        Some(ElementType::Signed8bitInteger)
    } else if same_text(t, "unsigned 16-bit integer") {
        Some(ElementType::Unsigned16bitInteger)
    } else if same_text(t, "signed 16-bit integer") {
        Some(ElementType::Signed16bitInteger)
    } else if same_text(t, "unsigned 32-bit integer") {
        Some(ElementType::Unsigned32bitInteger)
    } else if same_text(t, "signed 32-bit integer") {
        Some(ElementType::Signed32bitInteger)
    } else if same_text(t, "signed 32-bit real ieee") {
        Some(ElementType::Signed32bitReal)
    } else if same_text(t, "signed 64-bit real ieee") {
        Some(ElementType::Signed64bitReal)
    } else if same_text(t, "signed 32-bit complex ieee") {
        Some(ElementType::Signed32bitComplex)
    } else {
        None
    }
}

impl Encoding {
    /// The encoding a lower-case token names.
    pub fn from_lowercase(t: &str) -> (r: Result<Encoding, Error>)
        ensures
            r == match encoding_named(t@) {
                Some(e) => Ok(e),
                None => Err(Error::Parsing(ErrorKind::InvalidEncoding)),
            },
    {
        let v = chars_of(t);
        match encoding_of(v.as_slice()) {
            Some(e) => Ok(e),
            None => Err(Error::Parsing(ErrorKind::InvalidEncoding)),
        }
    }

    /// The encoding a token names, in any case.
    pub fn parse(s: &str) -> (r: Result<Encoding, Error>)
        ensures
            r == match encoding_named(lower_of(s@)) {
                Some(e) => Ok(e),
                None => Err(Error::Parsing(ErrorKind::InvalidEncoding)),
            },
    {
        let l = lowercase(s);
        Self::from_lowercase(l.as_str())
    }
}

impl Charset {
    /// The character set a lower-case token names.
    pub fn from_lowercase(t: &str) -> (r: Result<Charset, Error>)
        ensures
            r == match charset_named(t@) {
                Some(c) => Ok(c),
                None => Err(Error::Parsing(ErrorKind::InvalidCharset)),
            },
    {
        let v = chars_of(t);
        match charset_of(v.as_slice()) {
            Some(c) => Ok(c),
            None => Err(Error::Parsing(ErrorKind::InvalidCharset)),
        }
    }

    /// The character set a token names, in any case.
    pub fn parse(s: &str) -> (r: Result<Charset, Error>)
        ensures
            r == match charset_named(lower_of(s@)) {
                Some(c) => Ok(c),
                None => Err(Error::Parsing(ErrorKind::InvalidCharset)),
            },
    {
        let l = lowercase(s);
        Self::from_lowercase(l.as_str())
    }
}

impl ByteOrder {
    /// The byte order a lower-case token names.
    pub fn from_lowercase(t: &str) -> (r: Result<ByteOrder, Error>)
        ensures
            r == match byte_order_named(t@) {
                Some(b) => Ok(b),
                None => Err(Error::Parsing(ErrorKind::InvalidByteOrder)),
            },
    {
        let v = chars_of(t);
        match byte_order_of(v.as_slice()) {
            Some(b) => Ok(b),
            None => Err(Error::Parsing(ErrorKind::InvalidByteOrder)),
        }
    }

    /// The byte order a token names, in any case.
    pub fn parse(s: &str) -> (r: Result<ByteOrder, Error>)
        ensures
            r == match byte_order_named(lower_of(s@)) {
                Some(b) => Ok(b),
                None => Err(Error::Parsing(ErrorKind::InvalidByteOrder)),
            },
    {
        let l = lowercase(s);
        Self::from_lowercase(l.as_str())
    }
}

impl ElementType {
    /// The element type a lower-case token names.
    pub fn from_lowercase(t: &str) -> (r: Result<ElementType, Error>)
        ensures
            r == match element_type_named(t@) {
                Some(e) => Ok(e),
                None => Err(Error::Parsing(ErrorKind::InvalidElementType)),
            },
    {
        let v = chars_of(t);
        match element_type_of(v.as_slice()) {
            Some(e) => Ok(e),
            None => Err(Error::Parsing(ErrorKind::InvalidElementType)),
        }
    }

    /// The element type a token names, in any case.
    pub fn parse(s: &str) -> (r: Result<ElementType, Error>)
        ensures
            r == match element_type_named(lower_of(s@)) {
                Some(e) => Ok(e),
                None => Err(Error::Parsing(ErrorKind::InvalidElementType)),
            },
    {
        let l = lowercase(s);
        Self::from_lowercase(l.as_str())
    }
}

impl FromStr for Encoding {
    type Err = Error;

    fn from_str(s: &str) -> Result<Encoding, Error> {
        Encoding::parse(s)
    }
}

impl FromStr for Charset {
    type Err = Error;

    fn from_str(s: &str) -> Result<Charset, Error> {
        Charset::parse(s)
    }
}

impl FromStr for ByteOrder {
    type Err = Error;

    fn from_str(s: &str) -> Result<ByteOrder, Error> {
        ByteOrder::parse(s)
    }
}

impl FromStr for ElementType {
    type Err = Error;

    fn from_str(s: &str) -> Result<ElementType, Error> {
        ElementType::parse(s)
    }
}

/// The parameters of a Content-Type, `p` lower-cased, read segment by segment from `;` to `;`:
/// the conversion last named and the packing last named. A conversion outside the vocabulary
/// is an error.
pub open spec fn scan_params(
    p: Seq<char>,
    conversion: Option<Conversion>,
    packed: Option<PackedKind>,
) -> Result<(Option<Conversion>, Option<PackedKind>), ErrorKind>
    decreases p.len(),
{
    let end = match index_of(p, ';') {
        Some(i) => i,
        None => p.len() as int,
    };
    let seg = trim(p.take(end), false);
    let step = if starts_with(seg, "conversions="@) {
        match conversion_named(trim(seg.skip("conversions="@.len() as int), true)) {
            Some(c) => Ok((Some(c), packed)),
            None => Err(ErrorKind::InvalidConversion),
        }
    } else if starts_with(seg, "uncorrelated_sections"@) {
        Ok((conversion, Some(PackedKind::UncorrelatedSections)))
    } else if starts_with(seg, "flat"@) {
        Ok((conversion, Some(PackedKind::Flat)))
    } else {
        Ok((conversion, packed))
    };
    match step {
        Err(e) => Err(e),
        Ok((c, k)) => match index_of(p, ';') {
            Some(i) => if 0 <= i < p.len() {
                scan_params(p.skip(i + 1), c, k)
            } else {
                Ok((c, k))
            },
            None => Ok((c, k)),
        },
    }
}

/// The conversion that Content-Type parameters name; a packed conversion carries the packing.
pub open spec fn params_conversion(params: Seq<char>) -> Result<Option<Conversion>, ErrorKind> {
    lowered_params_conversion(lower_of(params))
}

/// The conversion that lower-case Content-Type parameters name; a packed conversion carries
/// the packing.
pub open spec fn lowered_params_conversion(p: Seq<char>) -> Result<Option<Conversion>, ErrorKind> {
    match scan_params(p, None, None) {
        Err(e) => Err(e),
        Ok((Some(Conversion::Packed(_)), k)) => Ok(Some(Conversion::Packed(k))),
        Ok((c, _)) => Ok(c),
    }
}

/// A Content-Type value: lower-cased type and subtype, and the conversion.
pub open spec fn content_type_of(s: Seq<char>) -> Result<
    (Seq<char>, Seq<char>, Option<Conversion>),
    ErrorKind,
> {
    let type_part = match index_of(s, ';') {
        Some(i) => s.take(i),
        None => s,
    };
    match index_of(type_part, '/') {
        None => Err(ErrorKind::InvalidContentType),
        Some(j) => {
            let conversion = match index_of(s, ';') {
                Some(i) => params_conversion(s.skip(i + 1)),
                None => Ok(None),
            };
            match conversion {
                Err(e) => Err(e),
                Ok(c) => Ok((lower_of(type_part.take(j)), lower_of(type_part.skip(j + 1)), c)),
            }
        },
    }
}

/// The first `;` segment of `p`, trimmed, that begins `charset=`.
pub open spec fn charset_segment(p: Seq<char>) -> Option<Seq<char>>
    decreases p.len(),
{
    let end = match index_of(p, ';') {
        Some(i) => i,
        None => p.len() as int,
    };
    let seg = trim(p.take(end), false);
    if starts_with(seg, "charset="@) {
        Some(seg)
    } else {
        match index_of(p, ';') {
            Some(i) => if 0 <= i < p.len() {
                charset_segment(p.skip(i + 1))
            } else {
                None
            },
            None => None,
        }
    }
}

/// What stands between the first and second `=` of `seg`.
pub open spec fn second_piece(seg: Seq<char>) -> Seq<char> {
    let v = match index_of(seg, '=') {
        Some(i) => seg.skip(i + 1),
        None => Seq::empty(),
    };
    match index_of(v, '=') {
        Some(j) => v.take(j),
        None => v,
    }
}

/// A Content-Transfer-Encoding value, lower-cased: the encoding of its first `;` segment and the
/// character set of the first later segment that gives one.
pub open spec fn transfer_encoding_of(s: Seq<char>) -> Result<(Encoding, Option<Charset>), ErrorKind> {
    lowered_transfer_encoding(lower_of(s))
}

/// A lower-case Content-Transfer-Encoding value: the encoding of its first `;` segment and the
/// character set of the first later segment that gives one.
pub open spec fn lowered_transfer_encoding(l: Seq<char>) -> Result<
    (Encoding, Option<Charset>),
    ErrorKind,
> {
    let first_end = match index_of(l, ';') {
        Some(i) => i,
        None => l.len() as int,
    };
    match encoding_named(trim(l.take(first_end), false)) {
        None => Err(ErrorKind::InvalidContentTransferEncoding),
        Some(e) => {
            let seg = match index_of(l, ';') {
                Some(i) => charset_segment(l.skip(i + 1)),
                None => None,
            };
            match seg {
                None => Ok((e, None)),
                Some(seg) => match charset_named(trim(second_piece(seg), true)) {
                    Some(c) => Ok((e, Some(c))),
                    None => Err(ErrorKind::InvalidCharset),
                },
            }
        },
    }
}

/// Reads Content-Type parameters: the conversion they name.
pub fn parse_params_to_conversion(params: &str) -> (r: Result<Option<Conversion>, Error>)
    ensures
        r == match params_conversion(params@) {
            Ok(c) => Ok(c),
            Err(e) => Err(Error::Parsing(e)),
        },
{
    let lowered = lowercase(params);
    conversion_from_lowercase(lowered.as_str())
}

/// Reads lower-case Content-Type parameters: the conversion they name.
pub fn conversion_from_lowercase(lowered: &str) -> (r: Result<Option<Conversion>, Error>)
    ensures
        r == match lowered_params_conversion(lowered@) {
            Ok(c) => Ok(c),
            Err(e) => Err(Error::Parsing(e)),
        },
{
    let p = chars_of(lowered);
    let p = p.as_slice();
    let ghost whole = p@;
    let prefix_len = "conversions=".unicode_len();
    let plen = p.len();
    let mut conversion: Option<Conversion> = None;
    let mut packed: Option<PackedKind> = None;
    let mut start: usize = 0;
    proof {
        assert(whole.skip(0) =~= whole);
    }
    loop
        invariant
            whole == p@,
            plen == p@.len(),
            whole == lowered@,
            start <= p@.len(),
            prefix_len == "conversions="@.len(),
            scan_params(whole, None, None) == scan_params(
                whole.skip(start as int),
                conversion,
                packed,
            ),
        decreases p@.len() - start,
    {
        let rest = vstd::slice::slice_subrange(p, start, plen);
        proof {
            assert(rest@ =~= whole.skip(start as int));
        }
        let next = find_char(rest, ';');
        let end = match next {
            Some(i) => i,
            None => rest.len(),
        };
        let raw = vstd::slice::slice_subrange(rest, 0, end);
        proof {
            assert(raw@ =~= rest@.take(end as int));
        }
        let seg = trimmed(raw, false);
        let mut c2 = conversion;
        let mut k2 = packed;
        if has_prefix(seg, "conversions=") {
            let raw = vstd::slice::slice_subrange(seg, prefix_len, seg.len());
            proof {
                assert(raw@ =~= seg@.skip(prefix_len as int));
            }
            let value = trimmed(raw, true);
            match conversion_of(value) {
                Some(c) => {
                    c2 = Some(c);
                },
                None => {
                    return Err(Error::Parsing(ErrorKind::InvalidConversion));
                },
            }
        } else if has_prefix(seg, "uncorrelated_sections") {
            k2 = Some(PackedKind::UncorrelatedSections);
        } else if has_prefix(seg, "flat") {
            k2 = Some(PackedKind::Flat);
        }
        match next {
            Some(i) => {
                proof {
                    assert(rest@.skip(i + 1) =~= whole.skip(start + i + 1));
                }
                start = start + i + 1;
                conversion = c2;
                packed = k2;
            },
            None => {
                return match c2 {
                    Some(Conversion::Packed(_)) => Ok(Some(Conversion::Packed(k2))),
                    c => Ok(c),
                };
            },
        }
    }
}

/// The media type of a payload and the conversion applied to it.
#[derive(Debug)]
pub struct ContentType {
    pub mime_type: String,
    pub subtype: String,
    pub conversion: Option<Conversion>,
}

impl ContentType {
    /// Reads a Content-Type value.
    pub fn parse(s: &str) -> (r: Result<ContentType, Error>)
        ensures
            match content_type_of(s@) {
                Ok((m, st, c)) => r matches Ok(ct) && ct.mime_type@ == m && ct.subtype@ == st
                    && ct.conversion == c,
                Err(e) => r == Err::<ContentType, Error>(Error::Parsing(e)),
            },
    {
        let v = chars_of(s);
        let v = v.as_slice();
        let vlen = v.len();
        let semi = find_char(v, ';');
        let type_end = match semi {
            Some(i) => i,
            None => v.len(),
        };
        let type_part = vstd::slice::slice_subrange(v, 0, type_end);
        proof {
            assert(semi is None ==> type_part@ =~= s@);
            assert(semi is Some ==> type_part@ =~= s@.take(type_end as int));
            assert(type_part@ == (match index_of(s@, ';') {
                Some(i) => s@.take(i),
                None => s@,
            }));
        }
        let slash = match find_char(type_part, '/') {
            Some(j) => j,
            None => {
                return Err(Error::Parsing(ErrorKind::InvalidContentType));
            },
        };
        let conversion = match semi {
            Some(i) => {
                let params = string_of(vstd::slice::slice_subrange(v, i + 1, vlen));
                proof {
                    assert(params@ =~= s@.skip(i + 1));
                }
                match parse_params_to_conversion(params.as_str()) {
                    Ok(c) => c,
                    Err(e) => {
                        return Err(e);
                    },
                }
            },
            None => None,
        };
        let mime = string_of(vstd::slice::slice_subrange(type_part, 0, slash));
        let sub = string_of(vstd::slice::slice_subrange(type_part, slash + 1, type_part.len()));
        proof {
            assert(mime@ =~= type_part@.take(slash as int));
            assert(sub@ =~= type_part@.skip(slash + 1));
        }
        Ok(
            ContentType {
                mime_type: lowercase(mime.as_str()),
                subtype: lowercase(sub.as_str()),
                conversion,
            },
        )
    }
}

impl FromStr for ContentType {
    type Err = Error;

    fn from_str(s: &str) -> Result<ContentType, Error> {
        ContentType::parse(s)
    }
}

/// How a payload is written, and in which character set.
#[derive(Debug)]
pub struct ContentTransferEncoding {
    pub encoding: Encoding,
    pub charset: Option<Charset>,
}

/// Finds the first `;` segment of `p`, trimmed, that begins `charset=`.
fn find_charset_segment(p: &[char]) -> (r: Option<&[char]>)
    ensures
        match charset_segment(p@) {
            Some(seg) => r matches Some(x) && x@ == seg,
            None => r is None,
        },
{
    let plen = p.len();
    let mut start: usize = 0;
    proof {
        assert(p@.skip(0) =~= p@);
    }
    loop
        invariant
            plen == p@.len(),
            start <= p@.len(),
            charset_segment(p@) == charset_segment(p@.skip(start as int)),
        decreases p@.len() - start,
    {
        let rest = vstd::slice::slice_subrange(p, start, plen);
        proof {
            assert(rest@ =~= p@.skip(start as int));
        }
        let next = find_char(rest, ';');
        let end = match next {
            Some(i) => i,
            None => rest.len(),
        };
        let raw = vstd::slice::slice_subrange(rest, 0, end);
        proof {
            assert(raw@ =~= rest@.take(end as int));
        }
        let seg = trimmed(raw, false);
        if has_prefix(seg, "charset=") {
            return Some(seg);
        }
        match next {
            Some(i) => {
                proof {
                    assert(rest@.skip(i + 1) =~= p@.skip(start + i + 1));
                }
                start = start + i + 1;
            },
            None => {
                return None;
            },
        }
    }
}

/// What stands between the first and second `=` of `seg`.
fn second_piece_of(seg: &[char]) -> (r: &[char])
    ensures
        r@ == second_piece(seg@),
{
    let n = seg.len();
    let v = match find_char(seg, '=') {
        Some(i) => vstd::slice::slice_subrange(seg, i + 1, n),
        None => vstd::slice::slice_subrange(seg, 0, 0),
    };
    proof {
        assert(v@ =~= (match index_of(seg@, '=') {
            Some(i) => seg@.skip(i + 1),
            None => Seq::<char>::empty(),
        }));
    }
    match find_char(v, '=') {
        Some(j) => vstd::slice::slice_subrange(v, 0, j),
        None => v,
    }
}

impl ContentTransferEncoding {
    /// Reads a Content-Transfer-Encoding value.
    pub fn parse(s: &str) -> (r: Result<ContentTransferEncoding, Error>)
        ensures
            match transfer_encoding_of(s@) {
                Ok((e, c)) => r matches Ok(t) && t.encoding == e && t.charset == c,
                Err(k) => r matches Err(e) && e == Error::Parsing(k),
            },
    {
        let lowered = lowercase(s);
        Self::from_lowercase(lowered.as_str())
    }

    /// Reads a lower-case Content-Transfer-Encoding value.
    pub fn from_lowercase(lowered: &str) -> (r: Result<ContentTransferEncoding, Error>)
        ensures
            match lowered_transfer_encoding(lowered@) {
                Ok((e, c)) => r matches Ok(t) && t.encoding == e && t.charset == c,
                Err(k) => r matches Err(e) && e == Error::Parsing(k),
            },
    {
        let l = chars_of(lowered);
        let l = l.as_slice();
        let llen = l.len();
        let semi = find_char(l, ';');
        let first_end = match semi {
            Some(i) => i,
            None => llen,
        };
        let raw = vstd::slice::slice_subrange(l, 0, first_end);
        proof {
            assert(raw@ =~= l@.take(first_end as int));
            assert(first_end == (match index_of(l@, ';') {
                Some(i) => i,
                None => l@.len() as int,
            }));
        }
        let first = trimmed(raw, false);
        let encoding = match encoding_of(first) {
            Some(e) => e,
            None => {
                return Err(Error::Parsing(ErrorKind::InvalidContentTransferEncoding));
            },
        };
        let seg = match semi {
            Some(i) => {
                let rest = vstd::slice::slice_subrange(l, i + 1, llen);
                proof {
                    assert(rest@ =~= l@.skip(i + 1));
                }
                find_charset_segment(rest)
            },
            None => None,
        };
        let charset = match seg {
            None => None,
            Some(seg) => {
                let value = trimmed(second_piece_of(seg), true);
                match charset_of(value) {
                    Some(c) => Some(c),
                    None => {
                        return Err(Error::Parsing(ErrorKind::InvalidCharset));
                    },
                }
            },
        };
        Ok(ContentTransferEncoding { encoding, charset })
    }
}

impl FromStr for ContentTransferEncoding {
    type Err = Error;

    fn from_str(s: &str) -> Result<ContentTransferEncoding, Error> {
        ContentTransferEncoding::parse(s)
    }
}

/// A decimal digit.
pub open spec fn is_digit(c: char) -> bool {
    48 <= c as u32 <= 57
}

/// The value of the decimal digits `s`.
pub open spec fn digits_value(s: Seq<char>) -> int
    decreases s.len(),
{
    if s.len() == 0 {
        0
    } else {
        10 * digits_value(s.drop_last()) + ((s.last() as u32) as int - 48)
    }
}

/// `s` without a leading `+`.
pub open spec fn unsigned_part(s: Seq<char>) -> Seq<char> {
    if s.len() > 0 && s[0] == '+' {
        s.drop_first()
    } else {
        s
    }
}

/// A size written in decimal: an optional `+`, then one or more digits, of a value that fits.
pub open spec fn usize_of(s: Seq<char>) -> Option<usize> {
    let d = unsigned_part(s);
    if d.len() > 0 && (forall|i: int| 0 <= i < d.len() ==> is_digit(#[trigger] d[i]))
        && digits_value(d) <= usize::MAX {
        Some(digits_value(d) as usize)
    } else {
        None
    }
}

proof fn lemma_digits_nonneg(s: Seq<char>)
    requires
        forall|i: int| 0 <= i < s.len() ==> is_digit(#[trigger] s[i]),
    ensures
        digits_value(s) >= 0,
    decreases s.len(),
{
    if s.len() > 0 {
        lemma_digits_nonneg(s.drop_last());
    }
}

/// Reads a size written in decimal.
pub fn parse_usize(text: &str) -> (r: Option<usize>)
    ensures
        r == usize_of(text@),
{
    let v = chars_of(text);
    let s = v.as_slice();
    let n = s.len();
    let start: usize = if n > 0 && s[0] == '+' {
        1
    } else {
        0
    };
    let ghost d = if n > 0 && s@[0] == '+' {
        s@.drop_first()
    } else {
        s@
    };
    proof {
        assert(d =~= s@.skip(start as int));
    }
    if start == n {
        proof {
            assert(s@ == text@);
            assert(d.len() == 0);
        }
        return None;
    }
    let mut acc: usize = 0;
    let mut over = false;
    let mut i: usize = start;
    proof {
        assert(d.take(0) =~= Seq::<char>::empty());
    }
    while i < n
        invariant
            start <= i <= n,
            n == s@.len(),
            s@ == text@,
            d == s@.skip(start as int),
            d == (if n > 0 && s@[0] == '+' {
                s@.drop_first()
            } else {
                s@
            }),
            forall|j: int| 0 <= j < i - start ==> is_digit(#[trigger] d[j]),
            !over ==> acc == digits_value(d.take(i - start)),
            over ==> digits_value(d.take(i - start)) > usize::MAX,
        decreases n - i,
    {
        let u = s[i] as u32;
        if !(48 <= u && u <= 57) {
            proof {
                assert(!is_digit(d[i - start]));
                assert(unsigned_part(text@) == d);
                assert(!is_digit(unsigned_part(text@)[i - start]));
            }
            return None;
        }
        let digit = (u - 48) as usize;
        proof {
            assert(d.take(i + 1 - start).drop_last() =~= d.take(i - start));
            assert(d.take(i + 1 - start).last() == d[i - start]);
            assert(forall|j: int| 0 <= j < i - start ==> is_digit(#[trigger] d.take(i - start)[j]));
            lemma_digits_nonneg(d.take(i - start));
        }
        if !over {
            match acc.checked_mul(10) {
                Some(m) => match m.checked_add(digit) {
                    Some(x) => {
                        acc = x;
                    },
                    None => {
                        over = true;
                    },
                },
                None => {
                    over = true;
                },
            }
        }
        i = i + 1;
    }
    proof {
        assert(d.take(n - start) =~= d);
        assert(unsigned_part(text@) == d);
    }
    if over {
        None
    } else {
        Some(acc)
    }
}

/// Everything the header block says about one binary section.
#[derive(Debug)]
pub struct Metadata {
    pub content_type: ContentType,
    pub content_transfer_encoding: ContentTransferEncoding,
    pub size: usize,
    pub padding: Option<usize>,
    pub byte_order: ByteOrder,
    pub md5_digest: Option<String>,
    pub element_type: ElementType,
    pub element_count: usize,
    pub width: Option<usize>,
    pub height: Option<usize>,
    pub depth: Option<usize>,
}

/// The content of a `Metadata`, with text as characters.
pub struct MetadataModel {
    pub mime_type: Seq<char>,
    pub subtype: Seq<char>,
    pub conversion: Option<Conversion>,
    pub encoding: Encoding,
    pub charset: Option<Charset>,
    pub size: usize,
    pub padding: Option<usize>,
    pub byte_order: ByteOrder,
    pub md5_digest: Option<Seq<char>>,
    pub element_type: ElementType,
    pub element_count: usize,
    pub width: Option<usize>,
    pub height: Option<usize>,
    pub depth: Option<usize>,
}

impl View for Metadata {
    type V = MetadataModel;

    open spec fn view(&self) -> MetadataModel {
        MetadataModel {
            mime_type: self.content_type.mime_type@,
            subtype: self.content_type.subtype@,
            conversion: self.content_type.conversion,
            encoding: self.content_transfer_encoding.encoding,
            charset: self.content_transfer_encoding.charset,
            size: self.size,
            padding: self.padding,
            byte_order: self.byte_order,
            md5_digest: match self.md5_digest {
                Some(d) => Some(d@),
                None => None,
            },
            element_type: self.element_type,
            element_count: self.element_count,
            width: self.width,
            height: self.height,
            depth: self.depth,
        }
    }
}

/// A size field that may be absent: its value, or `invalid` when it is malformed.
pub open spec fn size_field(h: Seq<Field>, name: Seq<char>, invalid: ErrorKind) -> Result<
    Option<usize>,
    ErrorKind,
> {
    match lookup_ignore_case(h, name) {
        None => Ok(None),
        Some(v) => match usize_of(v) {
            Some(n) => Ok(Some(n)),
            None => Err(invalid),
        },
    }
}

#[verifier::opaque]
/// The metadata that the fields `h` give, field names compared regardless of ASCII case, or
/// the first thing wrong with them, taken in the order of the record's fields.
pub open spec fn metadata_of(h: Seq<Field>) -> Result<MetadataModel, ErrorKind> {
    let content_type = match lookup_ignore_case(h, "content-type"@) {
        None => Err(ErrorKind::MissingContentType),
        Some(v) => content_type_of(v),
    };
    let transfer = match lookup_ignore_case(h, "content-transfer-encoding"@) {
        None => Err(ErrorKind::MissingContentTransferEncoding),
        Some(v) => transfer_encoding_of(v),
    };
    let size = match size_field(h, "x-binary-size"@, ErrorKind::InvalidSize) {
        Err(e) => Err(e),
        Ok(None) => Err(ErrorKind::MissingSize),
        Ok(Some(n)) => Ok(n),
    };
    let padding = size_field(h, "x-binary-size-padding"@, ErrorKind::InvalidPadding);
    let byte_order = match lookup_ignore_case(h, "x-binary-element-byte-order"@) {
        None => Err(ErrorKind::MissingByteOrder),
        Some(v) => match byte_order_named(lower_of(v)) {
            Some(b) => Ok(b),
            None => Err(ErrorKind::InvalidByteOrder),
        },
    };
    let element_type = match lookup_ignore_case(h, "x-binary-element-type"@) {
        None => Err(ErrorKind::MissingElementType),
        Some(v) => match element_type_named(lower_of(v)) {
            Some(t) => Ok(t),
            None => Err(ErrorKind::InvalidElementType),
        },
    };
    let count = match size_field(h, "x-binary-number-of-elements"@, ErrorKind::InvalidElementCount) {
        Err(e) => Err(e),
        Ok(None) => Err(ErrorKind::MissingElementCount),
        Ok(Some(n)) => Ok(n),
    };
    let width = size_field(h, "x-binary-size-fastest-dimension"@, ErrorKind::InvalidWidth);
    let height = size_field(h, "x-binary-size-second-dimension"@, ErrorKind::InvalidHeight);
    let depth = size_field(h, "x-binary-size-third-dimension"@, ErrorKind::InvalidDepth);
    match (content_type, transfer, size, padding, byte_order, element_type, count, width, height, depth) {
        (Err(e), _, _, _, _, _, _, _, _, _) => Err(e),
        (_, Err(e), _, _, _, _, _, _, _, _) => Err(e),
        (_, _, Err(e), _, _, _, _, _, _, _) => Err(e),
        (_, _, _, Err(e), _, _, _, _, _, _) => Err(e),
        (_, _, _, _, Err(e), _, _, _, _, _) => Err(e),
        (_, _, _, _, _, Err(e), _, _, _, _) => Err(e),
        (_, _, _, _, _, _, Err(e), _, _, _) => Err(e),
        (_, _, _, _, _, _, _, Err(e), _, _) => Err(e),
        (_, _, _, _, _, _, _, _, Err(e), _) => Err(e),
        (_, _, _, _, _, _, _, _, _, Err(e)) => Err(e),
        (
            Ok((mime_type, subtype, conversion)),
            Ok((encoding, charset)),
            Ok(size),
            Ok(padding),
            Ok(byte_order),
            Ok(element_type),
            Ok(element_count),
            Ok(width),
            Ok(height),
            Ok(depth),
        ) => Ok(
            MetadataModel {
                mime_type,
                subtype,
                conversion,
                encoding,
                charset,
                size,
                padding,
                byte_order,
                md5_digest: lookup_ignore_case(h, "content-md5"@),
                element_type,
                element_count,
                width,
                height,
                depth,
            },
        ),
    }
}

fn size_field_of(headers: &Headers, name: &str, invalid: ErrorKind) -> (r: Result<
    Option<usize>,
    Error,
>)
    ensures
        r == match size_field(headers@, name@, invalid) {
            Ok(n) => Ok(n),
            Err(e) => Err(Error::Parsing(e)),
        },
{
    match headers.get_ignore_case(name) {
        None => Ok(None),
        Some(v) => match parse_usize(v.as_str()) {
            Some(n) => Ok(Some(n)),
            None => Err(Error::Parsing(invalid)),
        },
    }
}

/// Builds metadata from header fields.
pub fn parse_metadata(headers: &Headers) -> (r: Result<Metadata, Error>)
    ensures
        match metadata_of(headers@) {
            Ok(m) => r matches Ok(x) && x@ == m,
            Err(e) => r matches Err(x) && x == Error::Parsing(e),
        },
{
    proof {
        reveal(metadata_of);
    }
    let content_type = match headers.get_ignore_case("content-type") {
        None => Err(Error::Parsing(ErrorKind::MissingContentType)),
        Some(v) => ContentType::parse(v.as_str()),
    };
    let transfer = match headers.get_ignore_case("content-transfer-encoding") {
        None => Err(Error::Parsing(ErrorKind::MissingContentTransferEncoding)),
        Some(v) => ContentTransferEncoding::parse(v.as_str()),
    };
    let size = match size_field_of(headers, "x-binary-size", ErrorKind::InvalidSize) {
        Err(e) => Err(e),
        Ok(None) => Err(Error::Parsing(ErrorKind::MissingSize)),
        Ok(Some(n)) => Ok(n),
    };
    let padding = size_field_of(headers, "x-binary-size-padding", ErrorKind::InvalidPadding);
    let byte_order = match headers.get_ignore_case("x-binary-element-byte-order") {
        None => Err(Error::Parsing(ErrorKind::MissingByteOrder)),
        Some(v) => ByteOrder::parse(v.as_str()),
    };
    let md5_digest = match headers.get_ignore_case("content-md5") {
        None => None,
        Some(v) => Some(v.clone()),
    };
    let element_type = match headers.get_ignore_case("x-binary-element-type") {
        None => Err(Error::Parsing(ErrorKind::MissingElementType)),
        Some(v) => ElementType::parse(v.as_str()),
    };
    let count = match size_field_of(
        headers,
        "x-binary-number-of-elements",
        ErrorKind::InvalidElementCount,
    ) {
        Err(e) => Err(e),
        Ok(None) => Err(Error::Parsing(ErrorKind::MissingElementCount)),
        Ok(Some(n)) => Ok(n),
    };
    let width = size_field_of(headers, "x-binary-size-fastest-dimension", ErrorKind::InvalidWidth);
    let height = size_field_of(headers, "x-binary-size-second-dimension", ErrorKind::InvalidHeight);
    let depth = size_field_of(headers, "x-binary-size-third-dimension", ErrorKind::InvalidDepth);
    let content_type = match content_type {
        Ok(c) => c,
        Err(e) => {
            return Err(e);
        },
    };
    let content_transfer_encoding = match transfer {
        Ok(t) => t,
        Err(e) => {
            return Err(e);
        },
    };
    let size = match size {
        Ok(n) => n,
        Err(e) => {
            return Err(e);
        },
    };
    let padding = match padding {
        Ok(n) => n,
        Err(e) => {
            return Err(e);
        },
    };
    let byte_order = match byte_order {
        Ok(b) => b,
        Err(e) => {
            return Err(e);
        },
    };
    let element_type = match element_type {
        Ok(t) => t,
        Err(e) => {
            return Err(e);
        },
    };
    let element_count = match count {
        Ok(n) => n,
        Err(e) => {
            return Err(e);
        },
    };
    let width = match width {
        Ok(n) => n,
        Err(e) => {
            return Err(e);
        },
    };
    let height = match height {
        Ok(n) => n,
        Err(e) => {
            return Err(e);
        },
    };
    let depth = match depth {
        Ok(n) => n,
        Err(e) => {
            return Err(e);
        },
    };
    Ok(
        Metadata {
            content_type,
            content_transfer_encoding,
            size,
            padding,
            byte_order,
            md5_digest,
            element_type,
            element_count,
            width,
            height,
            depth,
        },
    )
}

/// Reads a header block from the front of `reader` and builds metadata from it.
pub fn read_metadata(reader: &mut ByteCursor) -> (r: Result<Metadata, Error>)
    requires
        old(reader).wf(),
    ensures
        final(reader).wf(),
        final(reader).data() == old(reader).data(),
        match headers::header_block(old(reader).rest()) {
            Ok((fields, k)) => final(reader).pos() == old(reader).pos() + k && match metadata_of(
                headers::collect_fields(fields),
            ) {
                Ok(m) => r matches Ok(x) && x@ == m,
                Err(e) => r matches Err(x) && x == Error::Parsing(e),
            },
            Err(e) => r matches Err(x) && x == Error::Reading(e),
        },
{
    match headers::read_headers(reader) {
        Ok(h) => parse_metadata(&h),
        Err(e) => Err(Error::Reading(e)),
    }
}

} // verus!
