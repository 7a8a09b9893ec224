use ars_optimizer::character::{Character, Virtue, DEFAULT_MARTIAL_ABILITY, POINTS_VIRTUES};
use ars_optimizer::dies::{Dice, StressDie};
use ars_optimizer::equipment::{Armor, Weapon};
use ars_optimizer::stats::{Statistics, DEX, STA, STR};

fn virtue_cost(vs: &[Virtue]) -> u32 {
    vs.iter().map(|v| if *v == Virtue::GiantBlood { 3 } else { 1 }).sum()
}

fn count(vs: &[Virtue], v: Virtue) -> usize {
    vs.iter().filter(|x| **x == v).count()
}

fn assert_valid_virtues(vs: &[Virtue]) {
    assert!(count(vs, Virtue::GiantBlood) + count(vs, Virtue::Large) <= 1, "{:?}", vs);
    for single in [Virtue::Tough, Virtue::PuissantAbility, Virtue::AffinityAbility, Virtue::EnduringConstitution] {
        assert!(count(vs, single) <= 1, "{:?}", vs);
    }
    assert!(virtue_cost(vs) <= POINTS_VIRTUES as u32, "{:?}", vs);
}

fn stat_budget(vs: &[Virtue]) -> i8 {
    7 + 3 * count(vs, Virtue::ImprovedCharacteristics) as i8
}

#[test]
fn character_test_randomize() {
    let mut dice = Dice::seeded(20);
    let char = Character::randomize("toto".to_string(), &mut dice);
    println!("{:?}", char);
}

#[test]
fn character_test_mutate() {
    let mut dice = Dice::seeded(21);
    let char = Character::randomize("toto".to_string(), &mut dice);
    println!("Init: {:?}", char);
    println!("\n\nMutation ... \n\n");

    let mutated = char.mutate(35, 0, &mut dice);

    println!("Mutated: {:?}", mutated);
}

#[test]
fn new_applies_virtues() {
    let virtues = vec![
        Virtue::GiantBlood,
        Virtue::GreatCharacteristics(Statistics::unit(STA)),
        Virtue::PuissantAbility,
        Virtue::AffinityAbility,
        Virtue::Tough,
    ];
    let base = Statistics { str: 2, sta: 2, dex: 3, qik: 4, intl: 0, per: 0, pre: 0, com: 0 };
    let c = Character::new("Foe".to_string(), 1, virtues, base, 6, Weapon::great_sword(), Armor::plate_full_mail_camail_lvl_1());
    assert_eq!(c.size, 3);
    assert_eq!(c.stats.str, 3);
    assert_eq!(c.stats.sta, 4);
    assert_eq!(c.stats.dex, 3);
    assert_eq!(c.default_soak, 3 + 4);
    assert_eq!(c.martial_ability, 7);
    assert!(c.is_ability_puissant);
    assert!(!c.is_enduring);
    assert_eq!(c.base_stats, base);
}

#[test]
fn new_without_virtues_keeps_base_values() {
    let base = Statistics { str: -1, sta: 1, dex: 0, qik: 2, intl: 0, per: 0, pre: 0, com: 0 };
    let c = Character::new("plain".to_string(), 0, vec![], base, 5, Weapon::pole_axe(), Armor::full_chain_mail());
    assert_eq!(c.stats, base);
    assert_eq!(c.size, 0);
    assert_eq!(c.default_soak, 1);
    assert_eq!(c.martial_ability, 5);
    assert!(!c.is_ability_puissant);
}

#[test]
fn roll_totals_from_given_rolls() {
    let base = Statistics { str: 0, sta: 0, dex: 2, qik: 1, intl: 0, per: 0, pre: 0, com: 0 };
    let c = Character::new("p".to_string(), 0, vec![Virtue::PuissantAbility], base, 6, Weapon::great_sword(), Armor::custom());
    // die + dex + attack + ability + puissant
    assert_eq!(c.attack_from(StressDie::DIE(5)), 5 + 2 + 5 + 6 + 2);
    // die + qik + defence + ability + puissant
    assert_eq!(c.defence_from(StressDie::DIE(5)), 5 + 1 + 2 + 6 + 2);
    // die + qik + weapon initiative, no ability
    assert_eq!(c.init_from(StressDie::DIE(5)), 5 + 1 + 2);
    assert_eq!(c.attack_from(StressDie::BOTCH), 0);
    assert_eq!(c.defence_from(StressDie::BOTCH), 0);
    assert_eq!(c.init_from(StressDie::BOTCH), 0);
}

#[test]
fn random_rolls_stay_above_the_fixed_part_or_botch() {
    let mut dice = Dice::seeded(22);
    let c = Character::randomize("r".to_string(), &mut dice);
    let fixed_attack = c.attack_from(StressDie::DIE(0));
    for _ in 0..500 {
        let a = c.get_total_attack(&mut dice);
        assert!(a == 0 || a >= fixed_attack);
        let i = c.roll_init(&mut dice);
        assert!(i == 0 || i >= c.init_from(StressDie::DIE(0)));
        let d = c.get_total_defence(&mut dice);
        assert!(d == 0 || d >= c.defence_from(StressDie::DIE(0)));
    }
}

#[test]
fn is_valid_rules() {
    let base = Statistics { str: 3, sta: 0, dex: 0, qik: 0, intl: 0, per: 0, pre: 0, com: 0 };
    let c = Character::new("v".to_string(), 0, vec![], base, 6, Weapon::great_sword(), Armor::custom());
    let none: Vec<Virtue> = vec![];
    assert!(c.is_valid(&Virtue::Large, &none, &0));
    assert!(!c.is_valid(&Virtue::Large, &[Virtue::GiantBlood], &3));
    assert!(!c.is_valid(&Virtue::GiantBlood, &[Virtue::Large], &1));
    assert!(c.is_valid(&Virtue::GiantBlood, &none, &5));
    assert!(!c.is_valid(&Virtue::GiantBlood, &none, &6));
    assert!(!c.is_valid(&Virtue::Tough, &[Virtue::Tough], &1));
    assert!(c.is_valid(&Virtue::Tough, &[Virtue::PuissantAbility], &1));
    assert!(c.is_valid(&Virtue::ImprovedCharacteristics, &[Virtue::ImprovedCharacteristics], &1));
    assert!(c.is_valid(&Virtue::GreatCharacteristics(Statistics::unit(STR)), &none, &0));
    assert!(!c.is_valid(&Virtue::GreatCharacteristics(Statistics::unit(DEX)), &none, &0));
    assert!(!c.is_valid(&Virtue::EnduringConstitution, &[Virtue::EnduringConstitution], &1));
}

#[test]
fn generated_virtue_sets_are_valid() {
    let mut dice = Dice::seeded(23);
    for k in 0..300 {
        let c = Character::randomize(format!("{k}"), &mut dice);
        assert_valid_virtues(&c.virtues);
        assert!(c.base_stats.calculate_cost().unwrap() <= stat_budget(&c.virtues));
        assert!(c.base_stats.calculate_cost().unwrap() >= 0);
        assert_eq!(c.martial_ability as usize, DEFAULT_MARTIAL_ABILITY as usize + count(&c.virtues, Virtue::AffinityAbility));
        assert_eq!(c.weapon.name, "Great Sword");
        assert_eq!(c.armor.name, "Full Mail");
        let m = c.mutate(50, k, &mut dice);
        assert_valid_virtues(&m.virtues);
        assert!(m.base_stats.calculate_cost().unwrap() <= stat_budget(&m.virtues));
        assert_eq!(m.name, format!("{k}"));
        let mm = m.mutate(100, k, &mut dice);
        assert_valid_virtues(&mm.virtues);
    }
}

#[test]
fn mutation_rebuilds_derived_values_from_the_base() {
    let mut dice = Dice::seeded(24);
    let base = Statistics { str: 0, sta: 1, dex: 0, qik: 0, intl: 0, per: 0, pre: 0, com: 0 };
    let c = Character::new("a".to_string(), 0, vec![Virtue::AffinityAbility, Virtue::Tough], base, 6, Weapon::great_sword(), Armor::custom());
    for k in 0..50 {
        let m = c.mutate(0, k, &mut dice);
        // Nothing is dropped at rate zero, so the affinity stays and adds one
        // to the default ability exactly once.
        assert_eq!(count(&m.virtues, Virtue::AffinityAbility), 1);
        assert_eq!(m.martial_ability, DEFAULT_MARTIAL_ABILITY + 1);
        assert_eq!(m.default_soak as i32, 3 * count(&m.virtues, Virtue::Tough) as i32 + m.stats.sta as i32);
    }
}
