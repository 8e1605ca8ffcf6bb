use vstd::prelude::*;

use crate::average::BigNum;

verus! {

/// The smallest and the largest of `values`, or nothing when there are none.
pub fn min_max<N: BigNum>(values: &[N]) -> (r: Option<(N, N)>)
    ensures
        r is None <==> values@.len() == 0,
        r matches Some((lo, hi)) ==> {
            &&& exists|i: int| 0 <= i < values@.len() && values@[i] == lo
            &&& exists|i: int| 0 <= i < values@.len() && values@[i] == hi
            &&& forall|i: int|
                0 <= i < values@.len() ==> lo.big_num_value() <= #[trigger] values@[i].big_num_value()
                    <= hi.big_num_value()
        },
{
    if values.len() == 0 {
        return None;
    }
    let mut lo = values[0];
    let mut hi = values[0];
    let mut i: usize = 1;
    while i < values.len()
        invariant
            1 <= i <= values@.len(),
            exists|j: int| 0 <= j < values@.len() && values@[j] == lo,
            exists|j: int| 0 <= j < values@.len() && values@[j] == hi,
            forall|j: int|
                0 <= j < i ==> lo.big_num_value() <= #[trigger] values@[j].big_num_value()
                    <= hi.big_num_value(),
        decreases values@.len() - i,
    {
        let n = values[i];
        if n.less_than(&lo) {
            lo = n;
        }
        if hi.less_than(&n) {
            hi = n;
        }
        i = i + 1;
    }
    Some((lo, hi))
}

/// Writes grey levels into an RGBA buffer, four bytes a pixel: each level `v` is drawn as
/// `255 - v` in red, green and blue, with full alpha. Pixels beyond either buffer are left out.
pub fn write_to_pixel_buffer(pixels: &[u8], pixel_buffer: &mut [u8])
    ensures
        final(pixel_buffer)@.len() == old(pixel_buffer)@.len(),
        forall|k: int|
            0 <= k < final(pixel_buffer)@.len() ==> #[trigger] final(pixel_buffer)@[k] == if k / 4
                < pixels@.len() && k / 4 < old(pixel_buffer)@.len() / 4 {
                if k % 4 == 3 {
                    255u8
                } else {
                    (255 - pixels@[k / 4]) as u8
                }
            } else {
                old(pixel_buffer)@[k]
            },
{
    let n = pixel_buffer.len() / 4;
    let ghost original = pixel_buffer@;
    let mut i: usize = 0;
    while i < n && i < pixels.len()
        invariant
            n == original.len() / 4,
            original == old(pixel_buffer)@,
            pixel_buffer@.len() == original.len(),
            i <= n,
            i <= pixels@.len(),
            forall|k: int|
                0 <= k < original.len() ==> #[trigger] pixel_buffer@[k] == if k / 4 < i {
                    if k % 4 == 3 {
                        255u8
                    } else {
                        (255 - pixels@[k / 4]) as u8
                    }
                } else {
                    original[k]
                },
        decreases n - i,
    {
        let v = 255 - pixels[i];
        let _ = pixel_buffer.len();
        proof {
            assert(i * 4 + 3 < original.len()) by (nonlinear_arith)
                requires
                    i < n,
                    n == original.len() / 4,
            ;
        }
        let ghost before = pixel_buffer@;
        pixel_buffer[i * 4] = v;
        pixel_buffer[i * 4 + 1] = v;
        pixel_buffer[i * 4 + 2] = v;
        pixel_buffer[i * 4 + 3] = 255;
        proof {
            assert forall|k: int| 0 <= k < original.len() implies #[trigger] pixel_buffer@[k] == if k
                / 4 < i + 1 {
                if k % 4 == 3 {
                    255u8
                } else {
                    (255 - pixels@[k / 4]) as u8
                }
            } else {
                original[k]
            } by {
                if 4 * i <= k < 4 * i + 4 {
                    assert(k / 4 == i) by (nonlinear_arith)
                        requires
                            4 * i <= k < 4 * i + 4,
                    ;
                    assert(k % 4 == k - 4 * i) by (nonlinear_arith)
                        requires
                            4 * i <= k < 4 * i + 4,
                    ;
                } else {
                    assert(k / 4 != i) by (nonlinear_arith)
                        requires
                            !(4 * i <= k < 4 * i + 4),
                    ;
                    assert(pixel_buffer@[k] == before[k]);
                }
            }
        }
        i = i + 1;
    }
}

} // verus!
