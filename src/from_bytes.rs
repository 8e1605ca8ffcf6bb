use vstd::prelude::*;

verus! {

/// `256^n`.
pub open spec fn pow256(n: nat) -> int
    decreases n,
{
    if n == 0 {
        1
    } else {
        256 * pow256((n - 1) as nat)
    }
}

/// The unsigned little-endian value of `b`.
pub open spec fn le_unsigned(b: Seq<u8>) -> int
    decreases b.len(),
{
    if b.len() == 0 {
        0
    } else {
        b[0] + 256 * le_unsigned(b.drop_first())
    }
}

/// The little-endian value of `b`, read as two's complement when `signed`.
pub open spec fn le_int(b: Seq<u8>, signed: bool) -> int {
    let u = le_unsigned(b);
    let r = pow256(b.len());
    if signed && 2 * u >= r {
        u - r
    } else {
        u
    }
}

/// The value that a sample `width` bytes wide takes from the little-endian bytes `b`:
/// fewer bytes are sign- or zero-extended, more bytes are cut down to the low `width` ones.
pub open spec fn extend_sample(b: Seq<u8>, width: nat, signed: bool) -> int {
    if b.len() <= width {
        le_int(b, signed)
    } else {
        le_int(b.take(width as int), signed)
    }
}

/// `x` reduced into the range of a sample `width` bytes wide, as fixed-width arithmetic wraps.
pub open spec fn wrap(x: int, width: nat, signed: bool) -> int {
    let r = pow256(width);
    let m = x % r;
    if signed && 2 * m >= r {
        m - r
    } else {
        m
    }
}

/// A fixed-width integer sample built from little-endian bytes.
pub trait FromBytes: Sized + Copy {
    /// The integer the sample holds.
    spec fn value(self) -> int;

    /// Whether the sample type is signed.
    spec fn signed() -> bool;

    /// Width of the sample type in bytes.
    spec fn width() -> nat;

    fn from_1_bytes(bytes: [u8; 1]) -> (r: Self)
        ensures
            r.value() == extend_sample(bytes@, Self::width(), Self::signed()),
    ;

    fn from_2_bytes(bytes: [u8; 2]) -> (r: Self)
        ensures
            r.value() == extend_sample(bytes@, Self::width(), Self::signed()),
    ;

    fn from_4_bytes(bytes: [u8; 4]) -> (r: Self)
        ensures
            r.value() == extend_sample(bytes@, Self::width(), Self::signed()),
    ;

    fn from_8_bytes(bytes: [u8; 8]) -> (r: Self)
        ensures
            r.value() == extend_sample(bytes@, Self::width(), Self::signed()),
    ;

    /// Sum with the type's own wrap-around on overflow.
    fn add_wrapping(self, rhs: Self) -> (r: Self)
        ensures
            r.value() == wrap(self.value() + rhs.value(), Self::width(), Self::signed()),
    ;
}

proof fn lemma_pow256()
    ensures
        pow256(1) == 0x100,
        pow256(2) == 0x1_0000,
        pow256(4) == 0x1_0000_0000,
        pow256(8) == 0x1_0000_0000_0000_0000,
{
    reveal_with_fuel(pow256, 9);
}

pub proof fn lemma_le_unsigned_1(b: Seq<u8>)
    requires
        b.len() == 1,
    ensures
        le_unsigned(b) == b[0],
        le_unsigned(b.take(1)) == b[0],
{
    reveal_with_fuel(le_unsigned, 2);
    assert(b.take(1) =~= b);
}

pub proof fn lemma_le_unsigned_2(b: Seq<u8>)
    requires
        b.len() >= 2,
    ensures
        le_unsigned(b.take(2)) == b[0] + 256 * b[1],
{
    let t = b.take(2);
    reveal_with_fuel(le_unsigned, 3);
    assert(t.drop_first().drop_first() =~= Seq::<u8>::empty());
}

pub proof fn lemma_le_unsigned_4(b: Seq<u8>)
    requires
        b.len() >= 4,
    ensures
        le_unsigned(b.take(4)) == b[0] + 256 * b[1] + 0x1_0000 * b[2] + 0x100_0000 * b[3],
{
    let t = b.take(4);
    reveal_with_fuel(le_unsigned, 5);
    assert(t.drop_first().drop_first().drop_first().drop_first() =~= Seq::<u8>::empty());
}

pub proof fn lemma_le_unsigned_8(b: Seq<u8>)
    requires
        b.len() >= 8,
    ensures
        le_unsigned(b.take(8)) == b[0] + 0x100 * b[1] + 0x1_0000 * b[2] + 0x100_0000 * b[3]
            + 0x1_0000_0000 * b[4] + 0x100_0000_0000 * b[5] + 0x1_0000_0000_0000 * b[6]
            + 0x100_0000_0000_0000 * b[7],
{
    let t = b.take(8);
    reveal_with_fuel(le_unsigned, 9);
    assert(t.drop_first().drop_first().drop_first().drop_first().drop_first().drop_first().drop_first().drop_first()
        =~= Seq::<u8>::empty());
}

fn le_u16(b: &[u8]) -> (r: u16)
    requires
        b@.len() >= 2,
    ensures
        r == le_unsigned(b@.take(2)),
{
    proof {
        lemma_le_unsigned_2(b@);
    }
    b[0] as u16 + (b[1] as u16) * 0x100
}

fn le_u32(b: &[u8]) -> (r: u32)
    requires
        b@.len() >= 4,
    ensures
        r == le_unsigned(b@.take(4)),
{
    proof {
        lemma_le_unsigned_4(b@);
    }
    b[0] as u32 + (b[1] as u32) * 0x100 + (b[2] as u32) * 0x1_0000 + (b[3] as u32) * 0x100_0000
}

fn le_u64(b: &[u8]) -> (r: u64)
    requires
        b@.len() >= 8,
    ensures
        r == le_unsigned(b@.take(8)),
{
    proof {
        lemma_le_unsigned_8(b@);
    }
    b[0] as u64 + (b[1] as u64) * 0x100 + (b[2] as u64) * 0x1_0000 + (b[3] as u64) * 0x100_0000 + (
    b[4] as u64) * 0x1_0000_0000 + (b[5] as u64) * 0x100_0000_0000 + (b[6] as u64)
        * 0x1_0000_0000_0000 + (b[7] as u64) * 0x100_0000_0000_0000
}

fn signed_8(u: u8) -> (r: i8)
    ensures
        r == (if 2 * u >= 0x100 {
            u - 0x100
        } else {
            u as int
        }),
{
    if u >= 0x80 {
        (u as i16 - 0x100) as i8
    } else {
        u as i8
    }
}

fn signed_16(u: u16) -> (r: i16)
    ensures
        r == (if 2 * u >= 0x1_0000 {
            u - 0x1_0000
        } else {
            u as int
        }),
{
    if u >= 0x8000 {
        (u as i32 - 0x1_0000) as i16
    } else {
        u as i16
    }
}

fn signed_32(u: u32) -> (r: i32)
    ensures
        r == (if 2 * u >= 0x1_0000_0000 {
            u - 0x1_0000_0000
        } else {
            u as int
        }),
{
    if u >= 0x8000_0000 {
        (u as i64 - 0x1_0000_0000) as i32
    } else {
        u as i32
    }
}

fn signed_64(u: u64) -> (r: i64)
    ensures
        r == (if 2 * u >= 0x1_0000_0000_0000_0000 {
            u - 0x1_0000_0000_0000_0000
        } else {
            u as int
        }),
{
    if u >= 0x8000_0000_0000_0000 {
        ((u - 0x8000_0000_0000_0000) as i64) + i64::MIN
    } else {
        u as i64
    }
}

proof fn lemma_wrap_add(x: int, y: int, width: nat, signed: bool, lo: int, hi: int)
    requires
        pow256(width) >= 2,
        signed ==> -2 * lo == pow256(width) && hi == -lo - 1,
        !signed ==> lo == 0 && hi == pow256(width) - 1,
        lo <= x <= hi,
        lo <= y <= hi,
    ensures
        wrap(x + y, width, signed) == (if x + y > hi {
            x + y - pow256(width)
        } else if x + y < lo {
            x + y + pow256(width)
        } else {
            x + y
        }),
{
    let r = pow256(width);
    let s = x + y;
    if signed {
        if s >= 0 {
            vstd::arithmetic::div_mod::lemma_small_mod(s as nat, r as nat);
        } else {
            assert((s + r) % r == s % r) by {
                vstd::arithmetic::div_mod::lemma_mod_add_multiples_vanish(s, r);
            }
            vstd::arithmetic::div_mod::lemma_small_mod((s + r) as nat, r as nat);
        }
    } else if s > hi {
        assert((s - r) % r == s % r) by {
            vstd::arithmetic::div_mod::lemma_mod_sub_multiples_vanish(s, r);
        }
        vstd::arithmetic::div_mod::lemma_small_mod((s - r) as nat, r as nat);
    } else {
        vstd::arithmetic::div_mod::lemma_small_mod(s as nat, r as nat);
    }
}

impl FromBytes for u8 {
    open spec fn value(self) -> int {
        self as int
    }

    open spec fn signed() -> bool {
        false
    }

    open spec fn width() -> nat {
        1
    }

    fn from_1_bytes(bytes: [u8; 1]) -> (r: u8) {
        proof {
            lemma_le_unsigned_1(bytes@);
            lemma_pow256();
        }
        bytes[0]
    }

    fn from_2_bytes(bytes: [u8; 2]) -> (r: u8) {
        proof {
            lemma_le_unsigned_1(bytes@.take(1));
            lemma_pow256();
        }
        bytes[0]
    }

    fn from_4_bytes(bytes: [u8; 4]) -> (r: u8) {
        proof {
            lemma_le_unsigned_1(bytes@.take(1));
            lemma_pow256();
        }
        bytes[0]
    }

    fn from_8_bytes(bytes: [u8; 8]) -> (r: u8) {
        proof {
            lemma_le_unsigned_1(bytes@.take(1));
            lemma_pow256();
        }
        bytes[0]
    }

    fn add_wrapping(self, rhs: u8) -> (r: u8) {
        proof {
            lemma_pow256();
            lemma_wrap_add(self as int, rhs as int, 1, false, 0, 0xff);
        }
        self.wrapping_add(rhs)
    }
}

impl FromBytes for i8 {
    open spec fn value(self) -> int {
        self as int
    }

    open spec fn signed() -> bool {
        true
    }

    open spec fn width() -> nat {
        1
    }

    fn from_1_bytes(bytes: [u8; 1]) -> (r: i8) {
        proof {
            lemma_le_unsigned_1(bytes@);
            lemma_pow256();
        }
        signed_8(bytes[0])
    }

    fn from_2_bytes(bytes: [u8; 2]) -> (r: i8) {
        proof {
            lemma_le_unsigned_1(bytes@.take(1));
            lemma_pow256();
        }
        signed_8(bytes[0])
    }

    fn from_4_bytes(bytes: [u8; 4]) -> (r: i8) {
        proof {
            lemma_le_unsigned_1(bytes@.take(1));
            lemma_pow256();
        }
        signed_8(bytes[0])
    }

    fn from_8_bytes(bytes: [u8; 8]) -> (r: i8) {
        proof {
            lemma_le_unsigned_1(bytes@.take(1));
            lemma_pow256();
        }
        signed_8(bytes[0])
    }

    fn add_wrapping(self, rhs: i8) -> (r: i8) {
        proof {
            lemma_pow256();
            lemma_wrap_add(self as int, rhs as int, 1, true, -0x80, 0x7f);
        }
        self.wrapping_add(rhs)
    }
}

impl FromBytes for u16 {
    open spec fn value(self) -> int {
        self as int
    }

    open spec fn signed() -> bool {
        false
    }

    open spec fn width() -> nat {
        2
    }

    fn from_1_bytes(bytes: [u8; 1]) -> (r: u16) {
        proof {
            lemma_le_unsigned_1(bytes@);
            lemma_pow256();
        }
        bytes[0] as u16
    }

    fn from_2_bytes(bytes: [u8; 2]) -> (r: u16) {
        proof {
            lemma_le_unsigned_2(bytes@);
            lemma_pow256();
            assert(bytes@.take(2) =~= bytes@);
        }
        le_u16(&bytes)
    }

    fn from_4_bytes(bytes: [u8; 4]) -> (r: u16) {
        proof {
            lemma_le_unsigned_2(bytes@);
            lemma_pow256();
        }
        le_u16(&bytes)
    }

    fn from_8_bytes(bytes: [u8; 8]) -> (r: u16) {
        proof {
            lemma_le_unsigned_2(bytes@);
            lemma_pow256();
        }
        le_u16(&bytes)
    }

    fn add_wrapping(self, rhs: u16) -> (r: u16) {
        proof {
            lemma_pow256();
            lemma_wrap_add(self as int, rhs as int, 2, false, 0, 0xffff);
        }
        self.wrapping_add(rhs)
    }
}

impl FromBytes for i16 {
    open spec fn value(self) -> int {
        self as int
    }

    open spec fn signed() -> bool {
        true
    }

    open spec fn width() -> nat {
        2
    }

    fn from_1_bytes(bytes: [u8; 1]) -> (r: i16) {
        proof {
            lemma_le_unsigned_1(bytes@);
            lemma_pow256();
        }
        signed_8(bytes[0]) as i16
    }

    fn from_2_bytes(bytes: [u8; 2]) -> (r: i16) {
        proof {
            lemma_le_unsigned_2(bytes@);
            lemma_pow256();
            assert(bytes@.take(2) =~= bytes@);
        }
        signed_16(le_u16(&bytes))
    }

    fn from_4_bytes(bytes: [u8; 4]) -> (r: i16) {
        proof {
            lemma_le_unsigned_2(bytes@);
            lemma_pow256();
        }
        signed_16(le_u16(&bytes))
    }

    fn from_8_bytes(bytes: [u8; 8]) -> (r: i16) {
        proof {
            lemma_le_unsigned_2(bytes@);
            lemma_pow256();
        }
        signed_16(le_u16(&bytes))
    }

    fn add_wrapping(self, rhs: i16) -> (r: i16) {
        proof {
            lemma_pow256();
            lemma_wrap_add(self as int, rhs as int, 2, true, -0x8000, 0x7fff);
        }
        self.wrapping_add(rhs)
    }
}

impl FromBytes for u32 {
    open spec fn value(self) -> int {
        self as int
    }

    open spec fn signed() -> bool {
        false
    }

    open spec fn width() -> nat {
        4
    }

    fn from_1_bytes(bytes: [u8; 1]) -> (r: u32) {
        proof {
            lemma_le_unsigned_1(bytes@);
            lemma_pow256();
        }
        bytes[0] as u32
    }

    fn from_2_bytes(bytes: [u8; 2]) -> (r: u32) {
        proof {
            lemma_le_unsigned_2(bytes@);
            lemma_pow256();
            assert(bytes@.take(2) =~= bytes@);
        }
        le_u16(&bytes) as u32
    }

    fn from_4_bytes(bytes: [u8; 4]) -> (r: u32) {
        proof {
            lemma_le_unsigned_4(bytes@);
            lemma_pow256();
            assert(bytes@.take(4) =~= bytes@);
        }
        le_u32(&bytes)
    }

    fn from_8_bytes(bytes: [u8; 8]) -> (r: u32) {
        proof {
            lemma_le_unsigned_4(bytes@);
            lemma_pow256();
        }
        le_u32(&bytes)
    }

    fn add_wrapping(self, rhs: u32) -> (r: u32) {
        proof {
            lemma_pow256();
            lemma_wrap_add(self as int, rhs as int, 4, false, 0, 0xffff_ffff);
        }
        self.wrapping_add(rhs)
    }
}

impl FromBytes for i32 {
    open spec fn value(self) -> int {
        self as int
    }

    open spec fn signed() -> bool {
        true
    }

    open spec fn width() -> nat {
        4
    }

    fn from_1_bytes(bytes: [u8; 1]) -> (r: i32) {
        proof {
            lemma_le_unsigned_1(bytes@);
            lemma_pow256();
        }
        signed_8(bytes[0]) as i32
    }

    fn from_2_bytes(bytes: [u8; 2]) -> (r: i32) {
        proof {
            lemma_le_unsigned_2(bytes@);
            lemma_pow256();
            assert(bytes@.take(2) =~= bytes@);
        }
        signed_16(le_u16(&bytes)) as i32
    }

    fn from_4_bytes(bytes: [u8; 4]) -> (r: i32) {
        proof {
            lemma_le_unsigned_4(bytes@);
            lemma_pow256();
            assert(bytes@.take(4) =~= bytes@);
        }
        signed_32(le_u32(&bytes))
    }

    fn from_8_bytes(bytes: [u8; 8]) -> (r: i32) {
        proof {
            lemma_le_unsigned_4(bytes@);
            lemma_pow256();
        }
        signed_32(le_u32(&bytes))
    }

    fn add_wrapping(self, rhs: i32) -> (r: i32) {
        proof {
            lemma_pow256();
            lemma_wrap_add(self as int, rhs as int, 4, true, -0x8000_0000, 0x7fff_ffff);
        }
        self.wrapping_add(rhs)
    }
}

impl FromBytes for u64 {
    open spec fn value(self) -> int {
        self as int
    }

    open spec fn signed() -> bool {
        false
    }

    open spec fn width() -> nat {
        8
    }

    fn from_1_bytes(bytes: [u8; 1]) -> (r: u64) {
        proof {
            lemma_le_unsigned_1(bytes@);
            lemma_pow256();
        }
        bytes[0] as u64
    }

    fn from_2_bytes(bytes: [u8; 2]) -> (r: u64) {
        proof {
            lemma_le_unsigned_2(bytes@);
            lemma_pow256();
            assert(bytes@.take(2) =~= bytes@);
        }
        le_u16(&bytes) as u64
    }

    fn from_4_bytes(bytes: [u8; 4]) -> (r: u64) {
        proof {
            lemma_le_unsigned_4(bytes@);
            lemma_pow256();
            assert(bytes@.take(4) =~= bytes@);
        }
        le_u32(&bytes) as u64
    }

    fn from_8_bytes(bytes: [u8; 8]) -> (r: u64) {
        proof {
            lemma_le_unsigned_8(bytes@);
            lemma_pow256();
            assert(bytes@.take(8) =~= bytes@);
        }
        le_u64(&bytes)
    }

    fn add_wrapping(self, rhs: u64) -> (r: u64) {
        proof {
            lemma_pow256();
            lemma_wrap_add(self as int, rhs as int, 8, false, 0, 0xffff_ffff_ffff_ffff);
        }
        self.wrapping_add(rhs)
    }
}

impl FromBytes for i64 {
    open spec fn value(self) -> int {
        self as int
    }

    open spec fn signed() -> bool {
        true
    }

    open spec fn width() -> nat {
        8
    }

    fn from_1_bytes(bytes: [u8; 1]) -> (r: i64) {
        proof {
            lemma_le_unsigned_1(bytes@);
            lemma_pow256();
        }
        signed_8(bytes[0]) as i64
    }

    fn from_2_bytes(bytes: [u8; 2]) -> (r: i64) {
        proof {
            lemma_le_unsigned_2(bytes@);
            lemma_pow256();
            assert(bytes@.take(2) =~= bytes@);
        }
        signed_16(le_u16(&bytes)) as i64
    }

    fn from_4_bytes(bytes: [u8; 4]) -> (r: i64) {
        proof {
            lemma_le_unsigned_4(bytes@);
            lemma_pow256();
            assert(bytes@.take(4) =~= bytes@);
        }
        signed_32(le_u32(&bytes)) as i64
    }

    fn from_8_bytes(bytes: [u8; 8]) -> (r: i64) {
        proof {
            lemma_le_unsigned_8(bytes@);
            lemma_pow256();
            assert(bytes@.take(8) =~= bytes@);
        }
        signed_64(le_u64(&bytes))
    }

    fn add_wrapping(self, rhs: i64) -> (r: i64) {
        proof {
            lemma_pow256();
            lemma_wrap_add(self as int, rhs as int, 8, true, -0x8000_0000_0000_0000, 0x7fff_ffff_ffff_ffff);
        }
        self.wrapping_add(rhs)
    }
}

} // verus!
