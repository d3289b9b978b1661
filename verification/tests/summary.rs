use rttmon::order::sorted_copy;
use rttmon::ratio::Ratio;
use rttmon::stats::{create_rtt, median, RttSummary, NANOS_PER_MILLI, TOTAL_LOSS, UNDEFINED};

const MS: u64 = 1_000_000;

fn value(r: Ratio) -> f64 {
    r.num as f64 / r.den as f64
}

fn same(r: Ratio, num: i128, den: i128) -> bool {
    r.den > 0 && r.num * den == num * r.den as i128
}

fn sentinel() -> RttSummary {
    RttSummary {
        min: Ratio { num: -1, den: 1 },
        max: Ratio { num: -1, den: 1 },
        avg: Ratio { num: -1, den: 1 },
        median: Ratio { num: -1, den: 1 },
        loss: Ratio { num: 100, den: 1 },
    }
}

#[test]
fn constants() {
    assert_eq!(NANOS_PER_MILLI, 1_000_000);
    assert_eq!(UNDEFINED, -1);
    assert_eq!(TOTAL_LOSS, 100);
}

#[test]
fn whole_number() {
    assert_eq!(Ratio::whole(-1), Ratio { num: -1, den: 1 });
    assert_eq!(Ratio::whole(100), Ratio { num: 100, den: 1 });
    assert_eq!(Ratio::whole(i64::MIN), Ratio { num: i64::MIN as i128, den: 1 });
}

#[test]
fn all_four_answered() {
    let burst = vec![10 * MS, 20 * MS, 30 * MS, 40 * MS];
    let s = create_rtt(&burst, 4);
    assert_eq!(s.min, Ratio { num: 10_000_000, den: 1_000_000 });
    assert_eq!(s.max, Ratio { num: 40_000_000, den: 1_000_000 });
    assert_eq!(s.avg, Ratio { num: 100_000_000, den: 4_000_000 });
    assert_eq!(s.median, Ratio { num: 50_000_000, den: 2_000_000 });
    assert_eq!(s.loss, Ratio { num: 0, den: 4 });
    assert_eq!(value(s.min), 10.0);
    assert_eq!(value(s.max), 40.0);
    assert_eq!(value(s.avg), 25.0);
    assert_eq!(value(s.median), 25.0);
    assert_eq!(value(s.loss), 0.0);
}

#[test]
fn three_of_five_answered() {
    let burst = vec![10 * MS, 20 * MS, 30 * MS];
    let s = create_rtt(&burst, 5);
    assert_eq!(s.min, Ratio { num: 10_000_000, den: 1_000_000 });
    assert_eq!(s.max, Ratio { num: 30_000_000, den: 1_000_000 });
    assert_eq!(s.avg, Ratio { num: 60_000_000, den: 3_000_000 });
    assert_eq!(s.median, Ratio { num: 20_000_000, den: 1_000_000 });
    assert_eq!(s.loss, Ratio { num: 200, den: 5 });
    assert_eq!(value(s.min), 10.0);
    assert_eq!(value(s.max), 30.0);
    assert_eq!(value(s.avg), 20.0);
    assert_eq!(value(s.median), 20.0);
    assert_eq!(value(s.loss), 40.0);
}

#[test]
fn none_of_three_answered() {
    let s = create_rtt(&[], 3);
    assert_eq!(s, sentinel());
    assert_eq!(value(s.min), -1.0);
    assert_eq!(value(s.max), -1.0);
    assert_eq!(value(s.avg), -1.0);
    assert_eq!(value(s.median), -1.0);
    assert_eq!(value(s.loss), 100.0);
}

#[test]
fn sentinel_whatever_was_expected() {
    for expected in [0u8, 1, 2, 7, 100, 254, 255] {
        assert_eq!(create_rtt(&[], expected), sentinel());
    }
}

#[test]
fn single_reply() {
    let s = create_rtt(&[7_654_321], 1);
    let it = Ratio { num: 7_654_321, den: 1_000_000 };
    assert_eq!(s.min, it);
    assert_eq!(s.max, it);
    assert_eq!(s.avg, it);
    assert_eq!(s.median, it);
    assert_eq!(s.loss, Ratio { num: 0, den: 1 });
}

#[test]
fn single_reply_of_many() {
    let s = create_rtt(&[500], 255);
    assert_eq!(s.min, Ratio { num: 500, den: 1_000_000 });
    assert_eq!(s.median, Ratio { num: 500, den: 1_000_000 });
    assert_eq!(s.loss, Ratio { num: 25_400, den: 255 });
}

#[test]
fn no_loss_is_ordered() {
    let burst = vec![900, 17, 33_000, 4, 4, 250_000_000, 12];
    let s = create_rtt(&burst, 7);
    assert_eq!(s.loss.num, 0);
    let le = |a: Ratio, b: Ratio| a.num * b.den as i128 <= b.num * a.den as i128;
    assert!(le(s.min, s.median));
    assert!(le(s.median, s.max));
    assert!(le(s.min, s.avg));
    assert!(le(s.avg, s.max));
    assert_eq!(s.min.num, 4);
    assert_eq!(s.max.num, 250_000_000);
    assert_eq!(s.median, Ratio { num: 17, den: 1_000_000 });
    assert_eq!(s.avg, Ratio { num: 250_033_937, den: 7_000_000 });
}

#[test]
fn median_of_odd_count() {
    assert_eq!(median(&[5, 1, 3]), Ratio { num: 3, den: 1_000_000 });
    assert_eq!(median(&[9]), Ratio { num: 9, den: 1_000_000 });
    assert_eq!(median(&[2, 2, 8, 1, 100]), Ratio { num: 2, den: 1_000_000 });
}

#[test]
fn median_of_even_count() {
    assert_eq!(median(&[4, 1]), Ratio { num: 5, den: 2_000_000 });
    assert_eq!(median(&[40, 10, 30, 20]), Ratio { num: 50, den: 2_000_000 });
    assert_eq!(median(&[1, 2, 4, 1_000]), Ratio { num: 6, den: 2_000_000 });
    assert_eq!(median(&[3, 3]), Ratio { num: 6, den: 2_000_000 });
}

#[test]
fn median_of_half_millis() {
    // 1 ms and 2 ms: the median is 1.5 ms.
    let m = median(&[2 * MS, MS]);
    assert_eq!(value(m), 1.5);
}

#[test]
fn median_ignores_order() {
    let arrangements: [[u64; 4]; 6] = [
        [10, 20, 30, 40],
        [40, 30, 20, 10],
        [20, 40, 10, 30],
        [30, 10, 40, 20],
        [10, 40, 20, 30],
        [40, 10, 30, 20],
    ];
    for a in arrangements {
        assert_eq!(median(&a), Ratio { num: 50, den: 2_000_000 });
    }
    let odd: [[u64; 3]; 6] = [[1, 2, 3], [1, 3, 2], [2, 1, 3], [2, 3, 1], [3, 1, 2], [3, 2, 1]];
    for a in odd {
        assert_eq!(median(&a), Ratio { num: 2, den: 1_000_000 });
    }
}

#[test]
fn summary_ignores_order() {
    let a = create_rtt(&[8, 3, 5, 3, 13], 9);
    let b = create_rtt(&[3, 13, 3, 8, 5], 9);
    assert_eq!(a, b);
    assert_eq!(a.avg, Ratio { num: 32, den: 5_000_000 });
    assert_eq!(a.median, Ratio { num: 5, den: 1_000_000 });
}

#[test]
fn burst_is_left_as_it_was() {
    let burst = vec![30, 10, 20];
    let _ = median(&burst);
    let _ = create_rtt(&burst, 3);
    assert_eq!(burst, vec![30, 10, 20]);
}

#[test]
fn loss_is_exact() {
    for expected in 1..=255u8 {
        for received in 0..=expected {
            let burst: Vec<u64> = (0..received).map(|i| 1_000 + i as u64).collect();
            let s = create_rtt(&burst, expected);
            let lost = (expected - received) as i128;
            assert!(same(s.loss, lost * 100, expected as i128));
            if received > 0 {
                assert_eq!(s.loss, Ratio { num: lost * 100, den: expected as u64 });
            }
        }
    }
}

#[test]
fn loss_in_percent() {
    assert_eq!(value(create_rtt(&[1, 2], 5).loss), 60.0);
    assert_eq!(value(create_rtt(&[1], 4).loss), 75.0);
    assert_eq!(value(create_rtt(&[1, 1, 1], 4).loss), 25.0);
    assert_eq!(create_rtt(&[1, 1], 3).loss, Ratio { num: 100, den: 3 });
}

#[test]
fn longest_times_do_not_overflow() {
    let burst = vec![u64::MAX; 255];
    let s = create_rtt(&burst, 255);
    assert_eq!(s.min.num, u64::MAX as i128);
    assert_eq!(s.max.num, u64::MAX as i128);
    assert_eq!(s.avg, Ratio { num: 255 * u64::MAX as i128, den: 255_000_000 });
    assert_eq!(median(&burst), Ratio { num: u64::MAX as i128, den: 1_000_000 });
    let two = vec![u64::MAX, u64::MAX];
    assert_eq!(median(&two), Ratio { num: 2 * u64::MAX as i128, den: 2_000_000 });
}

#[test]
fn zero_times() {
    let s = create_rtt(&[0, 0], 2);
    assert_eq!(s.min, Ratio { num: 0, den: 1_000_000 });
    assert_eq!(s.max, Ratio { num: 0, den: 1_000_000 });
    assert_eq!(s.avg, Ratio { num: 0, den: 2_000_000 });
    assert_eq!(s.median, Ratio { num: 0, den: 2_000_000 });
}

#[test]
fn sorted_copy_sorts() {
    assert_eq!(sorted_copy(&[]), Vec::<u64>::new());
    assert_eq!(sorted_copy(&[3]), vec![3]);
    assert_eq!(sorted_copy(&[3, 1, 2, 1, 3, 0]), vec![0, 1, 1, 2, 3, 3]);
    assert_eq!(sorted_copy(&[5, 4, 3, 2, 1]), vec![1, 2, 3, 4, 5]);
    assert_eq!(sorted_copy(&[1, 2, 3]), vec![1, 2, 3]);
    let v = vec![u64::MAX, 0, 7];
    assert_eq!(sorted_copy(&v), vec![0, 7, u64::MAX]);
    assert_eq!(v, vec![u64::MAX, 0, 7]);
}

#[test]
fn sub_millisecond_times() {
    // 0.25 ms, 0.5 ms and 1.5 ms.
    let s = create_rtt(&[250_000, 1_500_000, 500_000], 4);
    assert_eq!(value(s.min), 0.25);
    assert_eq!(value(s.max), 1.5);
    assert_eq!(value(s.median), 0.5);
    assert_eq!(value(s.avg), 0.75);
    assert_eq!(value(s.loss), 25.0);
}
