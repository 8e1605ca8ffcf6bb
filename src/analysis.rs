use vstd::prelude::*;

use crate::average::{allocate_slice, compute_average_slice, mean, Average, BigNum};

verus! {

/// The values sampled at radius index `j`, over all angle rows in order (`Some` entries only).
pub open spec fn radius_column<P: BigNum>(samples: Seq<Vec<Option<P>>>, j: int) -> Seq<int>
    decreases samples.len(),
{
    if samples.len() == 0 {
        Seq::empty()
    } else {
        let rest = radius_column(samples.drop_last(), j);
        match samples.last()@[j] {
            Some(v) => rest.push(v.big_num_value()),
            None => rest,
        }
    }
}

/// The azimuthally averaged profile: for each radius index, the mean of what was sampled there
/// over all angles; nothing when some radius has no sample at all.
pub fn radial_profile<P: BigNum>(samples: &Vec<Vec<Option<P>>>, radial_bins: usize) -> (r: Option<
    Vec<P>,
>)
    requires
        forall|i: int| 0 <= i < samples@.len() ==> (#[trigger] samples@[i])@.len() == radial_bins,
    ensures
        r is None <==> exists|j: int|
            0 <= j < radial_bins && #[trigger] radius_column(samples@, j).len() == 0,
        r matches Some(v) ==> v@.len() == radial_bins && forall|j: int|
            0 <= j < radial_bins ==> #[trigger] v@[j].big_num_value() == mean(
                radius_column(samples@, j),
            ),
{
    let mut bins: Vec<Average<P>> = allocate_slice(radial_bins);
    proof {
        assert forall|j: int| 0 <= j < radial_bins implies #[trigger] bins@[j].values()
            == radius_column(samples@.take(0), j) by {
            assert(samples@.take(0).len() == 0);
            assert(bins@[j].wf());
            assert(bins@[j].values() =~= Seq::<int>::empty());
        }
    }
    let mut i: usize = 0;
    while i < samples.len()
        invariant
            i <= samples@.len(),
            bins@.len() == radial_bins,
            forall|k: int| 0 <= k < samples@.len() ==> (#[trigger] samples@[k])@.len() == radial_bins,
            forall|j: int|
                0 <= j < radial_bins ==> (#[trigger] bins@[j]).wf() && bins@[j].values()
                    == radius_column(samples@.take(i as int), j),
        decreases samples@.len() - i,
    {
        let ghost next = samples@.take(i + 1);
        proof {
            assert(next.drop_last() =~= samples@.take(i as int));
            assert(next.last() == samples@[i as int]);
        }
        let row = &samples[i];
        let mut j: usize = 0;
        while j < radial_bins
            invariant
                i < samples@.len(),
                j <= radial_bins,
                row@.len() == radial_bins,
                *row == samples@[i as int],
                next == samples@.take(i + 1),
                next.drop_last() == samples@.take(i as int),
                next.last() == samples@[i as int],
                bins@.len() == radial_bins,
                forall|k: int|
                    0 <= k < radial_bins ==> (#[trigger] bins@[k]).wf() && bins@[k].values() == if k
                        < j {
                        radius_column(next, k)
                    } else {
                        radius_column(samples@.take(i as int), k)
                    },
            decreases radial_bins - j,
        {
            let ghost old_bins = bins@;
            proof {
                assert(radius_column(next, j as int) == match next.last()@[j as int] {
                    Some(v) => radius_column(samples@.take(i as int), j as int).push(
                        v.big_num_value(),
                    ),
                    None => radius_column(samples@.take(i as int), j as int),
                });
            }
            match row[j] {
                Some(v) => {
                    bins[j].add(v);
                },
                None => {},
            }
            proof {
                assert forall|k: int| 0 <= k < radial_bins && k != j implies #[trigger] bins@[k]
                    == old_bins[k] by {}
            }
            j = j + 1;
        }
        i = i + 1;
    }
    proof {
        assert(samples@.take(i as int) =~= samples@);
    }
    let r = compute_average_slice(&bins);
    proof {
        if r is None {
            let j = choose|j: int| 0 <= j < bins@.len() && #[trigger] bins@[j].values().len() == 0;
            assert(bins@[j].wf());
            assert(radius_column(samples@, j).len() == 0);
        } else {
            assert forall|j: int| 0 <= j < radial_bins implies #[trigger] radius_column(
                samples@,
                j,
            ).len() != 0 by {
                assert(bins@[j].wf());
                assert(bins@[j].values().len() != 0);
            }
        }
    }
    r
}

} // verus!
