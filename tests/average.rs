use cbf_rs::analysis::radial_profile;
use cbf_rs::average::{allocate_slice, compute_average_slice, Average};

#[test]
fn simple_u8() {
    let mut average: Average<u8> = Average::default();
    average.add(1);
    average.add(2);
    average.add(3);
    average.add(4);
    average.add(5);
    assert_eq!(average.average(), 3);
}

#[test]
fn simple_usize() {
    let mut average: Average<usize> = Average::default();
    average.add(1);
    average.add(2);
    average.add(3);
    average.add(4);
    average.add(5);
    assert_eq!(average.average(), 3);
}

#[test]
fn negative_isize() {
    let mut average: Average<isize> = Average::default();
    average.add(1);
    average.add(2);
    average.add(3);
    average.add(4);
    average.add(-5);
    assert_eq!(average.average(), 1);
}

#[test]
fn idempotency() {
    let mut average: Average<usize> = Average::default();
    average.add(1);
    average.add(2);
    average.add(3);
    average.add(4);
    average.add(5);
    assert_eq!(average.average(), 3);
    assert_eq!(average.average(), 3);
}

#[test]
fn big_u8() {
    let mut average: Average<u8> = Average::default();
    average.add(121);
    average.add(122);
    average.add(123);
    average.add(124);
    average.add(125);
    assert_eq!(average.average(), 123);
}

#[test]
fn small_i32() {
    let mut average: Average<i32> = Average::default();
    average.add(-1073741821);
    average.add(-1073741822);
    average.add(-1073741823);
    average.add(-1073741824);
    average.add(-1073741825);
    assert_eq!(average.average(), -1073741823);
}

#[test]
fn every_width_averages_one_to_five() {
    fn five<P: cbf_rs::average::BigNum + From<u8>>() -> P {
        let mut average: Average<P> = Average::new();
        for v in 1u8..=5 {
            average.add(P::from(v));
        }
        average.average()
    }
    assert_eq!(five::<u8>(), 3);
    assert_eq!(five::<i16>(), 3);
    assert_eq!(five::<u16>(), 3);
    assert_eq!(five::<i32>(), 3);
    assert_eq!(five::<u32>(), 3);
    assert_eq!(five::<i64>(), 3);
    assert_eq!(five::<u64>(), 3);
}

#[test]
fn negative_means_round_toward_zero() {
    let mut average: Average<i8> = Average::default();
    average.add(-3);
    average.add(-4);
    assert_eq!(average.average(), -3);
}

#[test]
fn extreme_values_do_not_overflow() {
    let mut average: Average<u64> = Average::default();
    average.add(u64::MAX);
    average.add(u64::MAX);
    average.add(u64::MAX - 2);
    assert_eq!(average.average(), u64::MAX - 1);
}

#[test]
fn empty_accumulator_has_no_mean() {
    let average: Average<i32> = Average::default();
    assert_eq!(average.try_average(), None);
}

#[test]
fn bins_average_separately() {
    let mut bins = allocate_slice::<u16>(2);
    bins[0].add(10);
    bins[0].add(20);
    bins[1].add(7);
    assert_eq!(compute_average_slice(&bins), Some(vec![15, 7]));
    let empty = allocate_slice::<u16>(1);
    assert_eq!(compute_average_slice(&empty), None);
}

#[test]
fn radial_profile_averages_each_radius_over_angles() {
    let samples = vec![
        vec![Some(10u16), Some(1), None],
        vec![Some(20), None, Some(7)],
        vec![None, Some(4), Some(8)],
    ];
    assert_eq!(radial_profile(&samples, 3), Some(vec![15, 2, 7]));
    let gap = vec![vec![Some(1i32), None], vec![Some(3), None]];
    assert_eq!(radial_profile(&gap, 2), None);
}
