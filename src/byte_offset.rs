use vstd::prelude::*;

use crate::from_bytes::{
    extend_sample, le_unsigned, lemma_le_unsigned_2, lemma_le_unsigned_4, wrap, FromBytes,
};
use crate::stream::{ByteCursor, IoError};

verus! {

/// The delta at the front of `s`, for samples `width` bytes wide, and how many bytes it takes;
/// `None` when `s` ends before the delta does.
///
/// A byte other than `0x80` is the delta; otherwise two little-endian bytes follow, which are
/// the delta unless they read `0x8000`; otherwise four, unless they read `0x8000_0000`;
/// otherwise eight.
pub open spec fn next_delta(s: Seq<u8>, width: nat, signed: bool) -> Option<(int, nat)> {
    if s.len() < 1 {
        None
    } else if s[0] != 0x80 {
        Some((extend_sample(s.take(1), width, signed), 1))
    } else if s.len() < 3 {
        None
    } else if le_unsigned(s.subrange(1, 3)) != 0x8000 {
        Some((extend_sample(s.subrange(1, 3), width, signed), 3))
    } else if s.len() < 7 {
        None
    } else if le_unsigned(s.subrange(3, 7)) != 0x8000_0000 {
        Some((extend_sample(s.subrange(3, 7), width, signed), 7))
    } else if s.len() < 15 {
        None
    } else {
        Some((extend_sample(s.subrange(7, 15), width, signed), 15))
    }
}

/// The `n` samples decoded from the front of `s`, each the running sum of the deltas so far
/// added to `base` with wrap-around, and the number of bytes they take; `None` when `s` ends first.
pub open spec fn decode(s: Seq<u8>, n: nat, base: int, width: nat, signed: bool) -> Option<
    (Seq<int>, nat),
>
    decreases n,
{
    if n == 0 {
        Some((Seq::empty(), 0))
    } else {
        match next_delta(s, width, signed) {
            None => None,
            Some((d, k)) => {
                let v = wrap(base + d, width, signed);
                match decode(s.skip(k as int), (n - 1) as nat, v, width, signed) {
                    None => None,
                    Some((vs, k2)) => Some((seq![v] + vs, k + k2)),
                }
            },
        }
    }
}

/// The integers that the samples of `s` hold.
pub open spec fn values<P: FromBytes>(s: Seq<P>) -> Seq<int> {
    s.map_values(|p: P| p.value())
}

/// Decodes samples into `buf`, filling it, from the front of `reader`.
pub fn read_byte_offset<P: FromBytes>(reader: &mut ByteCursor, buf: &mut [P]) -> (r: Result<
    (),
    IoError,
>)
    requires
        old(reader).wf(),
    ensures
        final(reader).wf(),
        final(reader).data() == old(reader).data(),
        final(buf)@.len() == old(buf)@.len(),
        match decode(old(reader).rest(), old(buf)@.len(), 0, P::width(), P::signed()) {
            Some((vs, k)) => r is Ok && values(final(buf)@) == vs && final(reader).pos()
                == old(reader).pos() + k,
            None => r == Err::<(), IoError>(IoError::UnexpectedEof),
        },
{
    let mut byte_offset_reader = ByteOffsetReader::<P>::new(*reader);
    let r = byte_offset_reader.read(buf);
    *reader = byte_offset_reader.into_inner();
    r
}

/// Decoder state: the stream and the last sample produced.
pub struct ByteOffsetReader<'a, P> {
    reader: ByteCursor<'a>,
    base_value: P,
}

impl<'a, P: FromBytes> ByteOffsetReader<'a, P> {
    /// The stream as it stands.
    pub closed spec fn reader(&self) -> ByteCursor<'a> {
        self.reader
    }

    /// The last sample produced, zero before the first.
    pub closed spec fn base(&self) -> int {
        self.base_value.value()
    }

    pub fn new(reader: ByteCursor<'a>) -> (r: Self)
        ensures
            r.reader() == reader,
            r.base() == 0,
    {
        let zero = P::from_1_bytes([0]);
        proof {
            reveal_with_fuel(le_unsigned, 2);
            reveal_with_fuel(crate::from_bytes::pow256, 2);
            assert([0u8]@.take(1) =~= [0u8]@);
        }
        ByteOffsetReader { reader, base_value: zero }
    }

    /// Gives the stream back.
    pub fn into_inner(self) -> (r: ByteCursor<'a>)
        ensures
            r == self.reader(),
    {
        self.reader
    }

    /// Decodes one sample.
    pub fn read_value(&mut self) -> (r: Result<P, IoError>)
        requires
            old(self).reader().wf(),
        ensures
            final(self).reader().wf(),
            final(self).reader().data() == old(self).reader().data(),
            match next_delta(old(self).reader().rest(), P::width(), P::signed()) {
                Some((d, k)) => r matches Ok(v) && v.value() == wrap(
                    old(self).base() + d,
                    P::width(),
                    P::signed(),
                ) && final(self).base() == v.value() && final(self).reader().pos()
                    == old(self).reader().pos() + k,
                None => r == Err::<P, IoError>(IoError::UnexpectedEof),
            },
    {
        match read_value::<P>(&mut self.reader) {
            Ok(value) => {
                self.base_value = self.base_value.add_wrapping(value);
                Ok(self.base_value)
            },
            Err(e) => Err(e),
        }
    }

    /// Decodes samples until `buf` is full.
    pub fn read(&mut self, buf: &mut [P]) -> (r: Result<(), IoError>)
        requires
            old(self).reader().wf(),
        ensures
            final(self).reader().wf(),
            final(self).reader().data() == old(self).reader().data(),
            final(buf)@.len() == old(buf)@.len(),
            match decode(
                old(self).reader().rest(),
                old(buf)@.len(),
                old(self).base(),
                P::width(),
                P::signed(),
            ) {
                Some((vs, k)) => r is Ok && values(final(buf)@) == vs && final(self).reader().pos()
                    == old(self).reader().pos() + k && final(self).base() == (if vs.len() > 0 {
                    vs.last()
                } else {
                    old(self).base()
                }),
                None => r == Err::<(), IoError>(IoError::UnexpectedEof),
            },
    {
        let ghost s0 = self.reader.rest();
        let ghost p0 = self.reader.pos();
        let ghost n = buf@.len();
        let ghost b0 = self.base();
        let mut i: usize = 0;
        let mut failed = false;
        while i < buf.len() && !failed
            invariant
                self.reader().wf(),
                self.reader().data() == old(self).reader().data(),
                buf@.len() == n,
                i <= n,
                p0 == old(self).reader().pos(),
                s0 == old(self).reader().rest(),
                b0 == old(self).base(),
                failed ==> decode(s0, n, b0, P::width(), P::signed()) is None,
                !failed ==> decode(s0, n, b0, P::width(), P::signed()) == match decode(
                    self.reader().rest(),
                    (n - i) as nat,
                    self.base(),
                    P::width(),
                    P::signed(),
                ) {
                    Some((vs, k)) => Some(
                        (values(buf@.take(i as int)) + vs, (self.reader().pos() - p0 + k) as nat),
                    ),
                    None => None,
                },
                !failed ==> self.reader().pos() >= p0,
                !failed ==> self.base() == (if i > 0 {
                    buf@[i - 1].value()
                } else {
                    b0
                }),
            decreases n - i + (if failed {
                0int
            } else {
                1int
            }),
        {
            let ghost before = self.reader().rest();
            match self.read_value() {
                Ok(value) => {
                    proof {
                        let (d, k) = next_delta(before, P::width(), P::signed()).unwrap();
                        assert(before.skip(k as int) =~= self.reader().rest());
                    }
                    buf[i] = value;
                    proof {
                        assert(values(buf@.take(i + 1)) =~= values(buf@.take(i as int)).push(
                            value.value(),
                        ));
                    }
                    i = i + 1;
                },
                Err(_) => {
                    failed = true;
                },
            }
        }
        if failed {
            return Err(IoError::UnexpectedEof);
        }
        proof {
            assert(buf@.take(n as int) =~= buf@);
            assert(values(buf@.take(n as int)) + Seq::<int>::empty() =~= values(buf@));
        }
        Ok(())
    }
}

/// Reads one delta from the front of `reader`.
fn read_value<P: FromBytes>(reader: &mut ByteCursor) -> (r: Result<P, IoError>)
    requires
        old(reader).wf(),
    ensures
        final(reader).wf(),
        final(reader).data() == old(reader).data(),
        match next_delta(old(reader).rest(), P::width(), P::signed()) {
            Some((d, k)) => r matches Ok(v) && v.value() == d && final(reader).pos() == old(
                reader,
            ).pos() + k,
            None => r == Err::<P, IoError>(IoError::UnexpectedEof),
        },
{
    let ghost s = reader.rest();
    let b = match read_n_bytes(reader, 1) {
        Ok(b) => b,
        Err(e) => {
            return Err(e);
        },
    };
    if b[0] != 0x80 {
        proof {
            assert([b[0]]@ =~= s.take(1));
        }
        return Ok(P::from_1_bytes([b[0]]));
    }
    let b = match read_n_bytes(reader, 2) {
        Ok(b) => b,
        Err(e) => {
            return Err(e);
        },
    };
    proof {
        assert(b@ =~= s.subrange(1, 3));
        assert([b[0], b[1]]@ =~= s.subrange(1, 3));
        lemma_le_unsigned_2(b@);
        assert(b@.take(2) =~= b@);
    }
    if !(b[0] == 0x00 && b[1] == 0x80) {
        return Ok(P::from_2_bytes([b[0], b[1]]));
    }
    let b = match read_n_bytes(reader, 4) {
        Ok(b) => b,
        Err(e) => {
            return Err(e);
        },
    };
    proof {
        assert(b@ =~= s.subrange(3, 7));
        assert([b[0], b[1], b[2], b[3]]@ =~= s.subrange(3, 7));
        lemma_le_unsigned_4(b@);
        assert(b@.take(4) =~= b@);
    }
    if !(b[0] == 0x00 && b[1] == 0x00 && b[2] == 0x00 && b[3] == 0x80) {
        return Ok(P::from_4_bytes([b[0], b[1], b[2], b[3]]));
    }
    let b = match read_n_bytes(reader, 8) {
        Ok(b) => b,
        Err(e) => {
            return Err(e);
        },
    };
    proof {
        assert(b@ =~= s.subrange(7, 15));
        assert([b[0], b[1], b[2], b[3], b[4], b[5], b[6], b[7]]@ =~= s.subrange(7, 15));
    }
    Ok(P::from_8_bytes([b[0], b[1], b[2], b[3], b[4], b[5], b[6], b[7]]))
}

/// Takes the next `n` bytes of `reader`.
fn read_n_bytes<'a>(reader: &mut ByteCursor<'a>, n: usize) -> (r: Result<&'a [u8], IoError>)
    requires
        old(reader).wf(),
    ensures
        final(reader).wf(),
        final(reader).data() == old(reader).data(),
        n <= old(reader).rest().len() ==> (r matches Ok(b) && b@ == old(reader).rest().take(
            n as int,
        ) && final(reader).pos() == old(reader).pos() + n),
        n > old(reader).rest().len() ==> r == Err::<&[u8], IoError>(IoError::UnexpectedEof),
{
    match reader.take(n) {
        Some(b) => Ok(b),
        None => Err(IoError::UnexpectedEof),
    }
}

/// Decoding never takes more bytes than there are.
pub proof fn lemma_decode_len(s: Seq<u8>, n: nat, base: int, width: nat, signed: bool)
    ensures
        decode(s, n, base, width, signed) matches Some((vs, k)) ==> k <= s.len() && vs.len() == n,
    decreases n,
{
    if n > 0 {
        match next_delta(s, width, signed) {
            Some((d, k)) => {
                lemma_decode_len(s.skip(k as int), (n - 1) as nat, wrap(base + d, width, signed), width, signed);
            },
            None => {},
        }
    }
}

} // verus!
