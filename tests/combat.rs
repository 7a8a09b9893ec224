use ars_optimizer::character::Character;
use ars_optimizer::combat::{Combat, Malus, RoundEnd, RoundRolls};
use ars_optimizer::dies::{Dice, StressDie};
use ars_optimizer::equipment::{Armor, Weapon};
use ars_optimizer::stats::Statistics;

fn plain(name: &str, dex: i8, qik: i8) -> Character {
    let base = Statistics { str: 0, sta: 0, dex, qik, intl: 0, per: 0, pre: 0, com: 0 };
    Character::new(name.to_string(), 0, vec![], base, 6, Weapon::great_sword(), Armor::custom())
}

fn strong() -> Character {
    let base = Statistics { str: 3, sta: 3, dex: 3, qik: 3, intl: 0, per: 0, pre: 0, com: 0 };
    Character::new("strong".to_string(), 0, vec![], base, 8, Weapon::great_sword(), Armor::plate_full_mail_camail_lvl_1())
}

fn weak() -> Character {
    let base = Statistics { str: -3, sta: -3, dex: -3, qik: -3, intl: 0, per: 0, pre: 0, com: 0 };
    Character::new("weak".to_string(), 0, vec![], base, 2, Weapon::pole_arm(), Armor::custom())
}

#[test]
fn combat_test_randomize() {
    let mut dice = Dice::seeded(30);
    let c1 = Character::randomize("toto".to_string(), &mut dice);
    let c2 = Character::randomize("tata".to_string(), &mut dice);

    let c1_winner = Combat::do_1v1(&c1, &c2, &mut dice);
    println!("c1 won {c1_winner}");
}

#[test]
fn damage_level_examples() {
    assert_eq!(Combat::get_damage_level(0, 5, 0), 0);
    assert_eq!(Combat::get_damage_level(5, 5, 0), 0);
    assert_eq!(Combat::get_damage_level(6, 5, 0), 1);
    assert_eq!(Combat::get_damage_level(10, 5, 0), 1);
    assert_eq!(Combat::get_damage_level(11, 5, 0), 2);
    // One level per five points past the soak: a knock-out level.
    assert_eq!(Combat::get_damage_level(100, 0, 0), 20);
    assert_eq!(Combat::get_malus_level(Combat::get_damage_level(100, 0, 0)), Malus::Ko);
    // Saturates instead of wrapping.
    assert_eq!(Combat::get_damage_level(u64::MAX, 0, 0), 255);
    assert_eq!(Combat::get_damage_level(u64::MAX, -20, -4), 255);
    // Negative soak counts as none; size widens the wound range.
    assert_eq!(Combat::get_damage_level(3, -10, 0), 1);
    assert_eq!(Combat::get_damage_level(12, 0, 2), 2);
    assert_eq!(Combat::get_damage_level(14, 0, 2), 2);
    assert_eq!(Combat::get_damage_level(15, 0, 2), 3);
}

#[test]
fn malus_levels() {
    assert_eq!(Combat::get_malus_level(0), Malus::Wound(0));
    assert_eq!(Combat::get_malus_level(1), Malus::Wound(1));
    assert_eq!(Combat::get_malus_level(2), Malus::Wound(3));
    assert_eq!(Combat::get_malus_level(3), Malus::Wound(5));
    assert_eq!(Combat::get_malus_level(4), Malus::Ko);
    assert_eq!(Combat::get_malus_level(255), Malus::Ko);
}

#[test]
fn resolve_attack_examples() {
    let attacker = plain("a", 2, 0);
    let defender = plain("d", 0, 0);
    // Attack 7+2+5+6 = 20 against defence 2+0+2+6 = 10: 10 + 9 damage
    // against soak 6 in ranges of 5 is level 3.
    assert_eq!(
        Combat::resolve_attack(&attacker, &defender, 0, 0, StressDie::DIE(7), StressDie::DIE(2)),
        Malus::Wound(5)
    );
    // With twelve points of malus the attack (8) no longer beats the defence.
    assert_eq!(
        Combat::resolve_attack(&attacker, &defender, 12, 0, StressDie::DIE(7), StressDie::DIE(2)),
        Malus::Safe
    );
    // The defender's malus lowers the defence: 20 against 0, level 5.
    assert_eq!(
        Combat::resolve_attack(&attacker, &defender, 0, 10, StressDie::DIE(7), StressDie::DIE(2)),
        Malus::Ko
    );
    // A botched attack is void.
    assert_eq!(
        Combat::resolve_attack(&attacker, &defender, 0, 0, StressDie::BOTCH, StressDie::DIE(2)),
        Malus::Safe
    );
    // An exploded attack knocks out.
    assert_eq!(
        Combat::resolve_attack(&attacker, &defender, 0, 0, StressDie::DIE(40), StressDie::DIE(2)),
        Malus::Ko
    );
    // A margin of one plus damage within soak and one range: level 1.
    assert_eq!(
        Combat::resolve_attack(&attacker, &defender, 0, 0, StressDie::DIE(0), StressDie::DIE(3)),
        Malus::Wound(1)
    );
}

#[test]
fn run_attack_outcomes_are_bounded() {
    let mut dice = Dice::seeded(31);
    let a = strong();
    let b = weak();
    for _ in 0..2000 {
        match Combat::run_attack(&a, &b, 0, 0, &mut dice) {
            Malus::Wound(v) => assert!(v == 1 || v == 3 || v == 5),
            Malus::Safe | Malus::Ko => {}
        }
    }
}

#[test]
fn same_seed_same_winners() {
    let mut setup = Dice::seeded(32);
    let c1 = Character::randomize("c1".to_string(), &mut setup);
    let c2 = Character::randomize("c2".to_string(), &mut setup);
    let mut first = Dice::seeded(99);
    let mut second = Dice::seeded(99);
    let a: Vec<bool> = (0..200).map(|_| Combat::run(&c1, &c2, &mut first)).collect();
    let b: Vec<bool> = (0..200).map(|_| Combat::run(&c1, &c2, &mut second)).collect();
    assert_eq!(a, b);
}

#[test]
fn dominant_profile_wins_most_fights() {
    let mut dice = Dice::seeded(33);
    let a = strong();
    let b = weak();
    let wins = (0..1000).filter(|_| Combat::run(&a, &b, &mut dice)).count();
    assert!(wins > 500, "wins {wins}");
    let losses = (0..1000).filter(|_| Combat::run(&b, &a, &mut dice)).count();
    assert!(losses < 500, "wins of the weak side {losses}");
}

fn severity(m: Malus) -> u8 {
    match m {
        Malus::Safe => 0,
        Malus::Wound(v) => v,
        Malus::Ko => 6,
    }
}

#[test]
fn malus_never_helps_the_wounded_side() {
    let attacker = plain("a", 2, 0);
    let defender = plain("d", 0, 0);
    for roll in [0u64, 3, 7, 12, 40] {
        let mut last = u8::MAX;
        for malus in 0..30u64 {
            let s = severity(Combat::resolve_attack(&attacker, &defender, malus, 0, StressDie::DIE(roll), StressDie::DIE(2)));
            assert!(s <= last);
            last = s;
        }
        let mut last = 0;
        for malus in 0..30u64 {
            let s = severity(Combat::resolve_attack(&attacker, &defender, 0, malus, StressDie::DIE(roll), StressDie::DIE(2)));
            assert!(s >= last);
            last = s;
        }
    }
}

#[test]
fn resolve_round_examples() {
    let first = plain("a", 2, 0);
    let second = plain("d", 0, 0);
    // The first attack wounds (level 3, five points); the answer, 11 - 5 = 6
    // against a defence of 17, is parried.
    let rolls = RoundRolls { attack1: StressDie::DIE(7), defence1: StressDie::DIE(2), attack2: StressDie::DIE(0), defence2: StressDie::DIE(9) };
    assert_eq!(Combat::resolve_round(&first, &second, 0, 0, rolls), RoundEnd::Continue(0, 5));
    // An exploded first attack ends the fight before the answer.
    let rolls = RoundRolls { attack1: StressDie::DIE(40), defence1: StressDie::DIE(2), attack2: StressDie::DIE(0), defence2: StressDie::DIE(0) };
    assert_eq!(Combat::resolve_round(&first, &second, 0, 0, rolls), RoundEnd::FirstWins);
    // A botched first attack, then a knock-out answer.
    let rolls = RoundRolls { attack1: StressDie::BOTCH, defence1: StressDie::DIE(2), attack2: StressDie::DIE(40), defence2: StressDie::DIE(2) };
    assert_eq!(Combat::resolve_round(&first, &second, 0, 0, rolls), RoundEnd::SecondWins);
}

fn round(a1: StressDie, d1: StressDie, a2: StressDie, d2: StressDie) -> RoundRolls {
    RoundRolls { attack1: a1, defence1: d1, attack2: a2, defence2: d2 }
}

#[test]
fn fights_from_given_rolls() {
    let first = plain("a", 2, 0);
    let second = plain("d", 0, 0);
    let wound = round(StressDie::DIE(7), StressDie::DIE(2), StressDie::DIE(0), StressDie::DIE(9));
    let knock_out = round(StressDie::DIE(40), StressDie::DIE(2), StressDie::DIE(0), StressDie::DIE(0));
    let answer_out = round(StressDie::BOTCH, StressDie::DIE(2), StressDie::DIE(40), StressDie::DIE(2));
    assert!(Combat::fight_with_rolls(&first, &second, &vec![wound, knock_out]));
    assert!(!Combat::fight_with_rolls(&first, &second, &vec![wound, answer_out, knock_out]));
    // Rolls run out without a knock-out: the wounded second loses.
    assert!(Combat::fight_with_rolls(&first, &second, &vec![wound, wound]));
    // No rounds at all: equal malus, the first attacker wins.
    assert!(Combat::fight_with_rolls(&first, &second, &vec![]));
    // Initiative: 5 + 0 + 2 for `first` against 9 + 0 + 2 for `second`, so
    // `second` attacks first and the knock-out round is its win.
    assert!(!Combat::run_with_rolls(&first, &second, StressDie::DIE(5), StressDie::DIE(9), &vec![knock_out]));
    assert!(Combat::run_with_rolls(&first, &second, StressDie::DIE(9), StressDie::DIE(5), &vec![knock_out]));
    assert!(Combat::run_with_rolls(&first, &second, StressDie::DIE(5), StressDie::DIE(5), &vec![knock_out]));
}
