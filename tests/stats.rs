use ars_optimizer::dies::Dice;
use ars_optimizer::stats::{add_ref, Statistics, COM, DEX, INT, PER, PRE, QIK, STA, STR};

fn values(s: &Statistics) -> [i8; 8] {
    [s.str, s.sta, s.dex, s.qik, s.intl, s.per, s.pre, s.com]
}

#[test]
fn stats_test_randomize() {
    let mut dice = Dice::seeded(10);
    let _stats = Statistics::randomize(7, &mut dice);
}

#[test]
fn test_max_increase() {
    let mut dice = Dice::seeded(11);
    let mut stat = Statistics::new();
    stat.dex = -2;
    // Make sure that the random part is always true
    let ratio = 1;
    assert_eq!(0, Statistics::get_valid_increase(&stat.str, 0, ratio, &mut dice));
    assert_eq!(1, Statistics::get_valid_increase(&stat.str, 1, ratio, &mut dice));
    assert_eq!(1, Statistics::get_valid_increase(&stat.str, 2, ratio, &mut dice));
    assert_eq!(2, Statistics::get_valid_increase(&stat.str, 3, ratio, &mut dice));
    assert_eq!(3, Statistics::get_valid_increase(&stat.str, 6, ratio, &mut dice));
    assert_eq!(3, Statistics::get_valid_increase(&stat.str, 100, ratio, &mut dice));

    assert_eq!(3, Statistics::get_valid_increase(&stat.dex, 100, ratio, &mut dice));
}

#[test]
fn test() {
    let mut a = 0u8;

    let b = &mut a;

    *b += 1;

    println!("{a}");
}

#[test]
fn stats_test_mutate() {
    let mut dice = Dice::seeded(12);
    let stats = Statistics { str: 0, sta: 0, dex: 0, qik: 0, intl: -3, per: -3, pre: -3, com: -3 };
    println!("{:?}", stats);

    let _i = Statistics::get_valid_increase(&-3, 8, 1, &mut dice);

    let mutated = stats.mutate(50, 7, &mut dice);
    println!("{:?}", mutated);
}

#[test]
fn cost_table() {
    let expected = [(3, 6), (2, 3), (1, 1), (0, 0), (-1, -1), (-2, -3), (-3, -6)];
    for (value, cost) in expected {
        assert_eq!(Statistics::get_cost(value), Ok(cost));
    }
    assert!(Statistics::get_cost(4).is_err());
    assert!(Statistics::get_cost(-4).is_err());
}

#[test]
fn calculate_cost_sums_or_refuses() {
    let s = Statistics { str: 3, sta: 2, dex: 1, qik: 0, intl: -1, per: -2, pre: -3, com: 3 };
    assert_eq!(s.calculate_cost(), Ok(6 + 3 + 1 + 0 - 1 - 3 - 6 + 6));
    let out = Statistics { str: 4, ..s };
    assert!(out.calculate_cost().is_err());
}

#[test]
fn increase_respects_the_marginal_cost() {
    let mut dice = Dice::seeded(13);
    // From -3 (cost -6), one step to -2 costs 3 points.
    assert_eq!(0, Statistics::get_valid_increase(&-3, 2, 1, &mut dice));
    assert_eq!(1, Statistics::get_valid_increase(&-3, 3, 1, &mut dice));
    assert_eq!(2, Statistics::get_valid_increase(&-3, 5, 1, &mut dice));
    assert_eq!(3, Statistics::get_valid_increase(&-3, 6, 1, &mut dice));
    // Nothing above 3.
    assert_eq!(0, Statistics::get_valid_increase(&3, 100, 1, &mut dice));
    assert_eq!(1, Statistics::get_valid_increase(&2, 100, 1, &mut dice));
}

#[test]
fn increase_is_at_least_one_when_affordable() {
    let mut dice = Dice::seeded(14);
    for _ in 0..200 {
        let r = Statistics::get_valid_increase(&0, 100, 3, &mut dice);
        assert!((1..=3).contains(&r));
    }
}

#[test]
fn randomize_stays_within_budget() {
    let mut dice = Dice::seeded(15);
    for points in [0u8, 1, 7, 10, 31] {
        for _ in 0..200 {
            let s = Statistics::randomize(points, &mut dice);
            assert!(values(&s).iter().all(|v| (-3..=3).contains(v)));
            let cost = s.calculate_cost().unwrap();
            assert!(cost >= 0 && cost as i64 <= points as i64, "cost {cost} for {points}");
        }
    }
}

#[test]
fn mutate_never_exceeds_budget() {
    let mut dice = Dice::seeded(16);
    for rate in [0u32, 10, 50, 100] {
        for points in [0u8, 7, 13] {
            for _ in 0..100 {
                let s = Statistics::randomize(points, &mut dice);
                let m = s.mutate(rate, points, &mut dice);
                assert!(values(&m).iter().all(|v| (-3..=3).contains(v)));
                assert!(m.calculate_cost().unwrap() as i64 <= points as i64);
            }
        }
    }
}

#[test]
fn mutate_without_rate_only_raises() {
    let mut dice = Dice::seeded(17);
    let s = Statistics { str: 0, sta: 0, dex: 0, qik: 0, intl: -3, per: -3, pre: -3, com: -3 };
    let m = s.mutate(0, 7, &mut dice);
    for (before, after) in values(&s).iter().zip(values(&m).iter()) {
        assert!(after >= before);
    }
    assert!(m.calculate_cost().unwrap() <= 7);
    assert!(m.calculate_cost().unwrap() > s.calculate_cost().unwrap());
}

#[test]
fn unit_vectors_and_lookup() {
    let s = Statistics { str: 1, sta: 2, dex: 3, qik: -1, intl: -2, per: -3, pre: 0, com: 2 };
    let names = [STR, STA, DEX, QIK, INT, PER, PRE, COM];
    for (k, name) in names.iter().enumerate() {
        let unit = Statistics::unit(*name);
        assert_eq!(values(&unit).iter().map(|v| *v as i32).sum::<i32>(), 1);
        assert_eq!(values(&unit)[k], 1);
        assert_eq!(s.retrieve_from_static(&unit), values(&s)[k]);
        assert_eq!(s.get(*name), values(&s)[k]);
    }
}

#[test]
fn add_ref_adds_each_field() {
    let mut s = Statistics { str: 1, sta: 2, dex: 3, qik: -1, intl: -2, per: -3, pre: 0, com: 2 };
    let o = Statistics { str: 1, sta: -1, dex: 0, qik: 2, intl: 5, per: 1, pre: 1, com: -2 };
    add_ref(&mut s, &o);
    assert_eq!(values(&s), [2, 1, 3, 1, 3, -2, 1, 0]);
    let mut t = Statistics::new();
    t.set(DEX, 3);
    assert_eq!(values(&t), [0, 0, 3, 0, 0, 0, 0, 0]);
}
