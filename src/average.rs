use vstd::prelude::*;

use num::traits::{CheckedDiv, ToPrimitive, Zero};
use num::BigInt;

verus! {

#[verifier::external_type_specification]
#[verifier::external_body]
pub struct ExBigInt(BigInt);

/// The integer a `BigInt` holds.
pub uninterp spec fn big_value(b: BigInt) -> int;

/// Relies on `Zero::zero` for `BigInt`: zero.
#[verifier::external_body]
fn big_zero() -> (r: BigInt)
    ensures
        big_value(r) == 0,
{
    BigInt::zero()
}

/// Relies on `AddAssign<i128>` for `BigInt`: exact addition, never overflowing.
#[verifier::external_body]
fn big_add(acc: &mut BigInt, v: i128)
    ensures
        big_value(*final(acc)) == big_value(*old(acc)) + v,
{
    *acc += v;
}

/// Relies on `CheckedDiv` for `BigInt`: nothing for a zero divisor, else the quotient
/// truncated toward zero.
#[verifier::external_body]
fn big_checked_div(a: &BigInt, b: &BigInt) -> (r: Option<BigInt>)
    ensures
        r is None <==> big_value(*b) == 0,
        r matches Some(q) ==> big_value(q) == div_trunc(big_value(*a), big_value(*b)),
{
    a.checked_div(b)
}

/// Relies on `ToPrimitive::to_i128` for `BigInt`: the value when it fits.
#[verifier::external_body]
fn big_to_i128(a: &BigInt) -> (r: Option<i128>)
    ensures
        r == (if i128::MIN <= big_value(*a) <= i128::MAX {
            Some(big_value(*a) as i128)
        } else {
            None
        }),
{
    a.to_i128()
}

/// `a / b` rounded toward zero.
pub open spec fn div_trunc(a: int, b: int) -> int {
    let q = (if a >= 0 {
        a
    } else {
        -a
    }) / (if b >= 0 {
        b
    } else {
        -b
    });
    if (a >= 0) == (b >= 0) {
        q
    } else {
        -q
    }
}

/// The sum of `s`.
pub open spec fn sum_of(s: Seq<int>) -> int
    decreases s.len(),
{
    if s.len() == 0 {
        0
    } else {
        sum_of(s.drop_last()) + s.last()
    }
}

/// The mean of `s` rounded toward zero.
pub open spec fn mean(s: Seq<int>) -> int {
    div_trunc(sum_of(s), s.len() as int)
}

/// An integer sample type whose values a mean is taken of.
pub trait BigNum: Sized + Copy {
    /// The integer the sample holds.
    spec fn big_num_value(self) -> int;

    spec fn min_value() -> int;

    spec fn max_value() -> int;

    proof fn lemma_range(self)
        ensures
            Self::min_value() <= self.big_num_value() <= Self::max_value(),
    ;

    proof fn lemma_bounds()
        ensures
            Self::min_value() <= 0 <= Self::max_value(),
            i128::MIN <= Self::min_value(),
            Self::max_value() <= i128::MAX,
    ;

    /// The sample as a wide integer.
    fn widen(self) -> (r: i128)
        ensures
            r == self.big_num_value(),
    ;

    /// The sample holding `v`.
    fn narrow(v: i128) -> (r: Self)
        requires
            Self::min_value() <= v <= Self::max_value(),
        ensures
            r.big_num_value() == v,
    ;

    /// Compares two samples.
    fn less_than(&self, other: &Self) -> (r: bool)
        ensures
            r == (self.big_num_value() < other.big_num_value()),
    ;
}

/// The running mean of samples: their exact sum and their count, in integers that never
/// overflow.
pub struct Average<P> {
    sum: BigInt,
    count: BigInt,
    added: Ghost<Seq<int>>,
    marker: std::marker::PhantomData<P>,
}

/// The values of `s`, all in the range of `P`.
pub open spec fn in_range<P: BigNum>(s: Seq<int>) -> bool {
    forall|i: int| 0 <= i < s.len() ==> P::min_value() <= #[trigger] s[i] <= P::max_value()
}

proof fn lemma_sum_bounds(s: Seq<int>, lo: int, hi: int)
    requires
        forall|i: int| 0 <= i < s.len() ==> lo <= #[trigger] s[i] <= hi,
    ensures
        s.len() * lo <= sum_of(s) <= s.len() * hi,
    decreases s.len(),
{
    if s.len() > 0 {
        let t = s.drop_last();
        assert(forall|i: int| 0 <= i < t.len() ==> lo <= #[trigger] t[i] <= hi) by {
            assert(forall|i: int| 0 <= i < t.len() ==> t[i] == s[i]);
        }
        lemma_sum_bounds(t, lo, hi);
        assert(s.len() * lo == t.len() * lo + lo) by (nonlinear_arith)
            requires
                s.len() == t.len() + 1,
        ;
        assert(s.len() * hi == t.len() * hi + hi) by (nonlinear_arith)
            requires
                s.len() == t.len() + 1,
        ;
    }
}

proof fn lemma_mean_bounds(sum: int, n: int, lo: int, hi: int)
    requires
        n > 0,
        lo <= 0 <= hi,
        n * lo <= sum <= n * hi,
    ensures
        lo <= div_trunc(sum, n) <= hi,
{
    if sum >= 0 {
        assert(sum / n <= hi) by {
            vstd::arithmetic::div_mod::lemma_div_is_ordered(sum, n * hi, n);
            vstd::arithmetic::div_mod::lemma_div_by_multiple(hi, n);
            assert(n * hi == hi * n) by (nonlinear_arith);
        }
        assert(sum / n >= 0) by {
            vstd::arithmetic::div_mod::lemma_div_pos_is_pos(sum, n);
        }
    } else {
        let m = -sum;
        let l = -lo;
        assert(m <= n * l) by (nonlinear_arith)
            requires
                n * lo <= sum,
                m == -sum,
                l == -lo,
        ;
        assert(m / n <= l) by {
            vstd::arithmetic::div_mod::lemma_div_is_ordered(m, n * l, n);
            vstd::arithmetic::div_mod::lemma_div_by_multiple(l, n);
            assert(n * l == l * n) by (nonlinear_arith);
        }
        assert(m / n >= 0) by {
            vstd::arithmetic::div_mod::lemma_div_pos_is_pos(m, n);
        }
    }
}

/// The mean of samples of a type, rounded toward zero, is itself a value of that type: however
/// far the sum runs past the type's range, narrowing the mean back never fails.
pub proof fn lemma_mean_representable<P: BigNum>(s: Seq<int>)
    requires
        s.len() > 0,
        in_range::<P>(s),
    ensures
        P::min_value() <= mean(s) <= P::max_value(),
{
    lemma_sum_bounds(s, P::min_value(), P::max_value());
    P::lemma_bounds();
    lemma_mean_bounds(sum_of(s), s.len() as int, P::min_value(), P::max_value());
}

impl<P: BigNum> Average<P> {
    /// The samples added so far, as integers.
    pub closed spec fn values(&self) -> Seq<int> {
        self.added@
    }

    pub closed spec fn wf(&self) -> bool {
        &&& big_value(self.sum) == sum_of(self.added@)
        &&& big_value(self.count) == self.added@.len()
        &&& in_range::<P>(self.added@)
    }

    /// An accumulator with no samples.
    pub fn new() -> (r: Self)
        ensures
            r.wf(),
            r.values() == Seq::<int>::empty(),
    {
        Average {
            sum: big_zero(),
            count: big_zero(),
            added: Ghost(Seq::empty()),
            marker: std::marker::PhantomData,
        }
    }

    /// Adds one sample.
    pub fn add(&mut self, value: P)
        requires
            old(self).wf(),
        ensures
            final(self).wf(),
            final(self).values() == old(self).values().push(value.big_num_value()),
    {
        proof {
            value.lemma_range();
            P::lemma_bounds();
        }
        let ghost before = self.added@;
        big_add(&mut self.sum, value.widen());
        big_add(&mut self.count, 1);
        self.added = Ghost(before.push(value.big_num_value()));
        proof {
            assert(self.added@.drop_last() =~= before);
        }
    }

    /// The mean of the samples rounded toward zero, or nothing before the first sample.
    pub fn try_average(&self) -> (r: Option<P>)
        requires
            self.wf(),
        ensures
            r is None <==> self.values().len() == 0,
            r matches Some(v) ==> v.big_num_value() == mean(self.values()),
    {
        match big_checked_div(&self.sum, &self.count) {
            None => None,
            Some(q) => {
                let ghost s = self.added@;
                proof {
                    lemma_mean_representable::<P>(s);
                    P::lemma_bounds();
                }
                match big_to_i128(&q) {
                    Some(v) => Some(P::narrow(v)),
                    None => None,
                }
            },
        }
    }

    /// The mean of the samples rounded toward zero. Reading it changes nothing, so reading it
    /// again gives the same value.
    pub fn average(&self) -> (r: P)
        requires
            self.wf(),
            self.values().len() > 0,
        ensures
            r.big_num_value() == mean(self.values()),
    {
        match self.try_average() {
            Some(v) => v,
            None => vstd::pervasive::unreached(),
        }
    }
}

impl<P: BigNum> Default for Average<P> {
    fn default() -> (r: Self)
        ensures
            r.wf(),
            r.values() == Seq::<int>::empty(),
    {
        Average::new()
    }
}

/// `len` accumulators with no samples.
pub fn allocate_slice<P: BigNum>(len: usize) -> (r: Vec<Average<P>>)
    ensures
        r@.len() == len,
        forall|i: int| 0 <= i < len ==> #[trigger] r@[i].wf() && r@[i].values().len() == 0,
{
    let mut r: Vec<Average<P>> = Vec::new();
    let mut i: usize = 0;
    while i < len
        invariant
            i <= len,
            r@.len() == i,
            forall|j: int| 0 <= j < i ==> #[trigger] r@[j].wf() && r@[j].values().len() == 0,
        decreases len - i,
    {
        r.push(Average::new());
        i = i + 1;
    }
    r
}

/// The mean of each accumulator, or nothing when one of them has no sample.
pub fn compute_average_slice<P: BigNum>(averages: &Vec<Average<P>>) -> (r: Option<Vec<P>>)
    requires
        forall|i: int| 0 <= i < averages@.len() ==> #[trigger] averages@[i].wf(),
    ensures
        r is None <==> exists|i: int|
            0 <= i < averages@.len() && #[trigger] averages@[i].values().len() == 0,
        r matches Some(v) ==> v@.len() == averages@.len() && forall|i: int|
            0 <= i < v@.len() ==> #[trigger] v@[i].big_num_value() == mean(averages@[i].values()),
{
    let mut out: Vec<P> = Vec::new();
    let mut i: usize = 0;
    while i < averages.len()
        invariant
            i <= averages@.len(),
            out@.len() == i,
            forall|j: int| 0 <= j < averages@.len() ==> #[trigger] averages@[j].wf(),
            forall|j: int| 0 <= j < i ==> averages@[j].values().len() > 0,
            forall|j: int|
                0 <= j < i ==> #[trigger] out@[j].big_num_value() == mean(averages@[j].values()),
        decreases averages@.len() - i,
    {
        match averages[i].try_average() {
            Some(v) => {
                out.push(v);
            },
            None => {
                return None;
            },
        }
        i = i + 1;
    }
    Some(out)
}

impl BigNum for u8 {
    open spec fn big_num_value(self) -> int {
        self as int
    }

    open spec fn min_value() -> int {
        0
    }

    open spec fn max_value() -> int {
        0xff
    }

    proof fn lemma_range(self) {
    }

    proof fn lemma_bounds() {
    }

    fn widen(self) -> (r: i128) {
        self as i128
    }

    fn narrow(v: i128) -> (r: u8) {
        v as u8
    }

    fn less_than(&self, other: &u8) -> (r: bool) {
        *self < *other
    }
}

impl BigNum for i8 {
    open spec fn big_num_value(self) -> int {
        self as int
    }

    open spec fn min_value() -> int {
        -0x80
    }

    open spec fn max_value() -> int {
        0x7f
    }

    proof fn lemma_range(self) {
    }

    proof fn lemma_bounds() {
    }

    fn widen(self) -> (r: i128) {
        self as i128
    }

    fn narrow(v: i128) -> (r: i8) {
        v as i8
    }

    fn less_than(&self, other: &i8) -> (r: bool) {
        *self < *other
    }
}

impl BigNum for u16 {
    open spec fn big_num_value(self) -> int {
        self as int
    }

    open spec fn min_value() -> int {
        0
    }

    open spec fn max_value() -> int {
        0xffff
    }

    proof fn lemma_range(self) {
    }

    proof fn lemma_bounds() {
    }

    fn widen(self) -> (r: i128) {
        self as i128
    }

    fn narrow(v: i128) -> (r: u16) {
        v as u16
    }

    fn less_than(&self, other: &u16) -> (r: bool) {
        *self < *other
    }
}

impl BigNum for i16 {
    open spec fn big_num_value(self) -> int {
        self as int
    }

    open spec fn min_value() -> int {
        -0x8000
    }

    open spec fn max_value() -> int {
        0x7fff
    }

    proof fn lemma_range(self) {
    }

    proof fn lemma_bounds() {
    }

    fn widen(self) -> (r: i128) {
        self as i128
    }

    fn narrow(v: i128) -> (r: i16) {
        v as i16
    }

    fn less_than(&self, other: &i16) -> (r: bool) {
        *self < *other
    }
}

impl BigNum for u32 {
    open spec fn big_num_value(self) -> int {
        self as int
    }

    open spec fn min_value() -> int {
        0
    }

    open spec fn max_value() -> int {
        0xffff_ffff
    }

    proof fn lemma_range(self) {
    }

    proof fn lemma_bounds() {
    }

    fn widen(self) -> (r: i128) {
        self as i128
    }

    fn narrow(v: i128) -> (r: u32) {
        v as u32
    }

    fn less_than(&self, other: &u32) -> (r: bool) {
        *self < *other
    }
}

impl BigNum for i32 {
    open spec fn big_num_value(self) -> int {
        self as int
    }

    open spec fn min_value() -> int {
        -0x8000_0000
    }

    open spec fn max_value() -> int {
        0x7fff_ffff
    }

    proof fn lemma_range(self) {
    }

    proof fn lemma_bounds() {
    }

    fn widen(self) -> (r: i128) {
        self as i128
    }

    fn narrow(v: i128) -> (r: i32) {
        v as i32
    }

    fn less_than(&self, other: &i32) -> (r: bool) {
        *self < *other
    }
}

impl BigNum for u64 {
    open spec fn big_num_value(self) -> int {
        self as int
    }

    open spec fn min_value() -> int {
        0
    }

    open spec fn max_value() -> int {
        0xffff_ffff_ffff_ffff
    }

    proof fn lemma_range(self) {
    }

    proof fn lemma_bounds() {
    }

    fn widen(self) -> (r: i128) {
        self as i128
    }

    fn narrow(v: i128) -> (r: u64) {
        v as u64
    }

    fn less_than(&self, other: &u64) -> (r: bool) {
        *self < *other
    }
}

impl BigNum for i64 {
    open spec fn big_num_value(self) -> int {
        self as int
    }

    open spec fn min_value() -> int {
        -0x8000_0000_0000_0000
    }

    open spec fn max_value() -> int {
        0x7fff_ffff_ffff_ffff
    }

    proof fn lemma_range(self) {
    }

    proof fn lemma_bounds() {
    }

    fn widen(self) -> (r: i128) {
        self as i128
    }

    fn narrow(v: i128) -> (r: i64) {
        v as i64
    }

    fn less_than(&self, other: &i64) -> (r: bool) {
        *self < *other
    }
}

impl BigNum for usize {
    open spec fn big_num_value(self) -> int {
        self as int
    }

    open spec fn min_value() -> int {
        usize::MIN as int
    }

    open spec fn max_value() -> int {
        usize::MAX as int
    }

    proof fn lemma_range(self) {
    }

    proof fn lemma_bounds() {
    }

    fn widen(self) -> (r: i128) {
        self as i128
    }

    fn narrow(v: i128) -> (r: usize) {
        v as usize
    }

    fn less_than(&self, other: &usize) -> (r: bool) {
        *self < *other
    }
}

impl BigNum for isize {
    open spec fn big_num_value(self) -> int {
        self as int
    }

    open spec fn min_value() -> int {
        isize::MIN as int
    }

    open spec fn max_value() -> int {
        isize::MAX as int
    }

    proof fn lemma_range(self) {
    }

    proof fn lemma_bounds() {
    }

    fn widen(self) -> (r: i128) {
        self as i128
    }

    fn narrow(v: i128) -> (r: isize) {
        v as isize
    }

    fn less_than(&self, other: &isize) -> (r: bool) {
        *self < *other
    }
}

} // verus!
