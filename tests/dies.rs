use ars_optimizer::dies::{crit_from_faces, roll_crit, roll_die, roll_stress_die, stress_from_faces, Dice, StressDie, MAX_STRESS};

#[test]
fn test_roll() {
    let mut dice = Dice::seeded(1);
    let outside_bounds = (1..=100).map(|_| roll_die(&mut dice)).any(|v| v > 9);
    assert_eq!(false, outside_bounds);
}

#[test]
fn test_stress_die() {
    let mut dice = Dice::seeded(2);
    for _ in 0..10000 {
        println!("###################");
        match roll_stress_die(&mut dice, 3) {
            StressDie::BOTCH => {}
            StressDie::DIE(i) => {
                if i > 20 {
                    println!("..............................................");
                    println!("Result of stress die {i}")
                }
            }
        }
    }
}

#[test]
fn roll_die_covers_every_face() {
    let mut dice = Dice::seeded(3);
    let mut seen = [false; 10];
    for _ in 0..1000 {
        seen[roll_die(&mut dice) as usize] = true;
    }
    assert!(seen.iter().all(|s| *s));
}

#[test]
fn stress_die_values_are_reachable_outcomes() {
    let mut dice = Dice::seeded(4);
    for _ in 0..10000 {
        match roll_stress_die(&mut dice, 1) {
            StressDie::BOTCH => {}
            StressDie::DIE(v) => {
                assert!(v != 1);
                assert!(v <= MAX_STRESS);
                if v > 9 {
                    assert!(v % 2 == 0);
                }
            }
        }
    }
}

#[test]
fn stress_die_explodes_at_the_expected_rate() {
    // A result above nine needs a first one (1 in 10) followed by an
    // explosion ending above nine (0.69), so about 6.9% of rolls.
    let mut dice = Dice::seeded(5);
    let n = 20000;
    let mut high = 0;
    let mut botches = 0;
    for _ in 0..n {
        match roll_stress_die(&mut dice, 1) {
            StressDie::BOTCH => botches += 1,
            StressDie::DIE(v) => {
                if v > 9 {
                    high += 1;
                }
            }
        }
    }
    let rate = high as f64 / n as f64;
    assert!(rate > 0.055 && rate < 0.083, "rate {rate}");
    // A botch needs a zero then a zero on the botch die: 1 in 100.
    let botch_rate = botches as f64 / n as f64;
    assert!(botch_rate > 0.005 && botch_rate < 0.015, "botch rate {botch_rate}");
}

#[test]
fn no_botch_dice_never_botch() {
    let mut dice = Dice::seeded(6);
    for _ in 0..5000 {
        assert!(matches!(roll_stress_die(&mut dice, 0), StressDie::DIE(_)));
    }
}

#[test]
fn crit_values_are_multiples_of_the_multiplier() {
    let mut dice = Dice::seeded(7);
    for _ in 0..2000 {
        match roll_crit(&mut dice, 3) {
            StressDie::DIE(v) => {
                assert!(v >= 16);
                assert_eq!(v % 8, 0);
            }
            StressDie::BOTCH => panic!("an explosion never botches"),
        }
    }
}

#[test]
fn same_seed_same_rolls() {
    let mut a = Dice::seeded(42);
    let mut b = Dice::seeded(42);
    for _ in 0..1000 {
        assert_eq!(roll_stress_die(&mut a, 2), roll_stress_die(&mut b, 2));
    }
}

#[test]
fn stress_results_from_faces() {
    assert_eq!(stress_from_faces(&vec![7], 1), StressDie::DIE(7));
    assert_eq!(stress_from_faces(&vec![2], 3), StressDie::DIE(2));
    assert_eq!(stress_from_faces(&vec![0, 3], 1), StressDie::DIE(0));
    assert_eq!(stress_from_faces(&vec![0, 0], 1), StressDie::BOTCH);
    assert_eq!(stress_from_faces(&vec![0], 0), StressDie::DIE(0));
    assert_eq!(stress_from_faces(&vec![0, 5, 0], 2), StressDie::BOTCH);
    assert_eq!(stress_from_faces(&vec![0, 5, 0], 1), StressDie::DIE(0));
    assert_eq!(stress_from_faces(&vec![1, 5], 3), StressDie::DIE(10));
    assert_eq!(stress_from_faces(&vec![1, 1, 0], 1), StressDie::DIE(40));
    assert_eq!(stress_from_faces(&vec![1, 1, 1, 9], 1), StressDie::DIE(72));
}

#[test]
fn explosion_results_from_faces() {
    assert_eq!(crit_from_faces(&vec![9], 0), StressDie::DIE(9));
    assert_eq!(crit_from_faces(&vec![0], 1), StressDie::DIE(20));
    assert_eq!(crit_from_faces(&vec![1, 1, 3], 2), StressDie::DIE(48));
    // A one at the largest multiplier counts as its face.
    let ones = vec![1u8; 70];
    assert_eq!(crit_from_faces(&ones, 58), StressDie::DIE(1u64 << 60));
    // Ones up to the largest multiplier, then a zero: ten times 2^60.
    let mut faces = vec![1u8; 59];
    faces.push(0);
    assert_eq!(crit_from_faces(&faces, 1), StressDie::DIE(10 * (1u64 << 60)));
    assert_eq!(crit_from_faces(&vec![0], 60), StressDie::DIE(10 * (1u64 << 60)));
    assert_eq!(MAX_STRESS, 10 * (1u64 << 60));
}
