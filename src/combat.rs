use crate::character::{attack_value, combat_roll, defence_value, init_value, Character};
use crate::dies::{roll_stress_die, Dice, StressDie};
use vstd::arithmetic::div_mod::lemma_div_is_ordered;
use vstd::prelude::*;

verus! {

/// What one attack does to its target.
#[derive(Debug, Clone, Copy, PartialEq, Eq, Structural)]
pub enum Malus {
    Safe,
    Wound(u8),
    Ko,
}

/// A guard on termination, which the rules leave to chance: a fight that
/// has seen no knock-out after this many rounds is decided on the wounds
/// taken, the combatant with fewer malus points winning and the first
/// attacker on a tie.
pub const MAX_ROUNDS: u64 = 10000;

/// The wound level of `damage` against `soak` (negative soak counts as none)
/// on a target of size `size`: none up to the soak, then one level per
/// `5 + size` points beyond it, saturating at 255.
pub open spec fn damage_level(damage: int, soak: int, size: int) -> int {
    let s = if soak > 0 {
        soak
    } else {
        0
    };
    if damage <= s {
        0
    } else {
        let level = (damage - s - 1) / (5 + size) + 1;
        if level > 255 {
            255
        } else {
            level
        }
    }
}

/// The malus a wound level inflicts; level four and beyond knock out.
pub open spec fn malus_level(level: int) -> Malus {
    if level == 0 {
        Malus::Wound(0)
    } else if level == 1 {
        Malus::Wound(1)
    } else if level == 2 {
        Malus::Wound(3)
    } else if level == 3 {
        Malus::Wound(5)
    } else {
        Malus::Ko
    }
}

/// `raw` brought into the range of `u64`.
pub open spec fn clamp_damage(raw: int) -> int {
    if raw < 0 {
        0
    } else if raw > u64::MAX {
        u64::MAX as int
    } else {
        raw
    }
}

/// The outcome of an attack by `c1`, carrying malus `m1`, on `c2`, carrying
/// malus `m2`, with attack roll `a` and defence roll `d`. An attack whose
/// total, or total plus damage, is not positive is void. Otherwise an attack
/// above the defence wounds by its margin plus the weapon's damage and the
/// attacker's strength, against the target's soak and armor.
pub open spec fn attack_outcome(
    c1: Character,
    c2: Character,
    m1: int,
    m2: int,
    a: StressDie,
    d: StressDie,
) -> Malus {
    let total_attack = attack_value(c1, a) - m1;
    let damage = c1.weapon.damage + c1.stats.str;
    if total_attack <= 0 || total_attack + damage <= 0 {
        Malus::Safe
    } else {
        let total_defence = defence_value(c2, d) - m2;
        if total_attack > total_defence {
            let level = damage_level(
                clamp_damage(total_attack - total_defence + damage),
                c2.default_soak + c2.armor.protection,
                c2.size as int,
            );
            if level != 0 {
                malus_level(level)
            } else {
                Malus::Safe
            }
        } else {
            Malus::Safe
        }
    }
}

/// The decision between combatants of these sizes is defined.
pub open spec fn can_fight(c1: Character, c2: Character) -> bool {
    c1.size > -5 && c2.size > -5
}

/// A wound inflicts at most five malus points.
pub open spec fn light_enough(m: Malus) -> bool {
    match m {
        Malus::Wound(v) => v <= 5,
        _ => true,
    }
}

/// How hard an outcome hits: nothing, the malus points of a wound, or more
/// than any wound for a knock-out.
pub open spec fn severity(m: Malus) -> int {
    match m {
        Malus::Safe => 0,
        Malus::Wound(v) => v as int,
        Malus::Ko => 6,
    }
}

proof fn lemma_damage_level_monotone(d1: int, d2: int, soak: int, size: int)
    requires
        d1 <= d2,
        size > -5,
    ensures
        damage_level(d1, soak, size) <= damage_level(d2, soak, size),
{
    let s = if soak > 0 {
        soak
    } else {
        0
    };
    if d1 > s {
        lemma_div_is_ordered(d1 - s - 1, d2 - s - 1, 5 + size);
    }
}

proof fn lemma_malus_level_monotone(l1: int, l2: int)
    requires
        1 <= l1 <= l2,
    ensures
        severity(malus_level(l1)) <= severity(malus_level(l2)),
{
}

/// The outcome of an attack beyond its void check, as a function of the
/// attack total `ta`, the defence total `td` and the damage bonus `damage`.
proof fn lemma_strike_monotone(c2: Character, ta1: int, ta2: int, td1: int, td2: int, damage: int)
    requires
        c2.size > -5,
        ta1 - td1 <= ta2 - td2,
    ensures
        ({
            let hit1 = ta1 > td1;
            let hit2 = ta2 > td2;
            let soak = c2.default_soak + c2.armor.protection;
            let l1 = damage_level(clamp_damage(ta1 - td1 + damage), soak, c2.size as int);
            let l2 = damage_level(clamp_damage(ta2 - td2 + damage), soak, c2.size as int);
            &&& hit1 ==> hit2
            &&& hit1 ==> l1 <= l2
        }),
{
    let soak = c2.default_soak + c2.armor.protection;
    lemma_damage_level_monotone(
        clamp_damage(ta1 - td1 + damage),
        clamp_damage(ta2 - td2 + damage),
        soak,
        c2.size as int,
    );
}

/// More malus on the attacker never makes its attack hit harder, whatever
/// the rolls.
pub proof fn lemma_attacker_malus_weakens(
    c1: Character,
    c2: Character,
    m1: int,
    more: int,
    m2: int,
    a: StressDie,
    d: StressDie,
)
    requires
        m1 <= more,
        c2.size > -5,
    ensures
        severity(attack_outcome(c1, c2, more, m2, a, d)) <= severity(attack_outcome(c1, c2, m1, m2, a, d)),
{
    let damage = c1.weapon.damage + c1.stats.str;
    let td = defence_value(c2, d) - m2;
    lemma_strike_monotone(c2, attack_value(c1, a) - more, attack_value(c1, a) - m1, td, td, damage);
    let soak = c2.default_soak + c2.armor.protection;
    let l1 = damage_level(clamp_damage(attack_value(c1, a) - more - td + damage), soak, c2.size as int);
    let l2 = damage_level(clamp_damage(attack_value(c1, a) - m1 - td + damage), soak, c2.size as int);
    if attack_value(c1, a) - more > td && l1 >= 1 {
        lemma_malus_level_monotone(l1, l2);
    }
}

/// More malus on the defender never makes an attack on it hit softer,
/// whatever the rolls.
pub proof fn lemma_defender_malus_exposes(
    c1: Character,
    c2: Character,
    m1: int,
    m2: int,
    more: int,
    a: StressDie,
    d: StressDie,
)
    requires
        m2 <= more,
        c2.size > -5,
    ensures
        severity(attack_outcome(c1, c2, m1, m2, a, d)) <= severity(attack_outcome(c1, c2, m1, more, a, d)),
{
    let damage = c1.weapon.damage + c1.stats.str;
    let ta = attack_value(c1, a) - m1;
    lemma_strike_monotone(c2, ta, ta, defence_value(c2, d) - m2, defence_value(c2, d) - more, damage);
    let soak = c2.default_soak + c2.armor.protection;
    let l1 = damage_level(clamp_damage(ta - (defence_value(c2, d) - m2) + damage), soak, c2.size as int);
    let l2 = damage_level(clamp_damage(ta - (defence_value(c2, d) - more) + damage), soak, c2.size as int);
    if ta > defence_value(c2, d) - m2 && l1 >= 1 {
        lemma_malus_level_monotone(l1, l2);
    }
}

/// The four rolls of one round: the first attacker's attack and the
/// second's defence, then the second's attack and the first's defence. A
/// defence roll goes unused when its attack is void.
#[derive(Debug, Clone, Copy, PartialEq, Eq, Structural)]
pub struct RoundRolls {
    pub attack1: StressDie,
    pub defence1: StressDie,
    pub attack2: StressDie,
    pub defence2: StressDie,
}

/// How a round ends: a knock-out by the first or by the second attacker, or
/// both standing with their new malus (first attacker's, then second's).
#[derive(Debug, Clone, Copy, PartialEq, Eq, Structural)]
pub enum RoundEnd {
    FirstWins,
    SecondWins,
    Continue(u64, u64),
}

/// The malus points an outcome inflicts.
pub open spec fn wound_points(m: Malus) -> int {
    match m {
        Malus::Wound(v) => v as int,
        _ => 0,
    }
}

/// One round between `c1` (attacking first, carrying `m1`) and `c2`
/// (carrying `m2`): `c1` attacks, a knock-out ends the fight, a wound adds to
/// `c2`'s malus before `c2` strikes back in the same way.
pub open spec fn round_end(c1: Character, c2: Character, m1: u64, m2: u64, r: RoundRolls) -> RoundEnd {
    let o1 = attack_outcome(c1, c2, m1 as int, m2 as int, r.attack1, r.defence1);
    if o1 == Malus::Ko {
        RoundEnd::FirstWins
    } else {
        let n2 = (m2 + wound_points(o1)) as u64;
        let o2 = attack_outcome(c2, c1, n2 as int, m1 as int, r.attack2, r.defence2);
        if o2 == Malus::Ko {
            RoundEnd::SecondWins
        } else {
            RoundEnd::Continue((m1 + wound_points(o2)) as u64, n2)
        }
    }
}

/// The fight from round `k` on, with malus `m1` and `m2`: true when `c1`
/// wins. Past the last round the fewer malus points win, `c1` on a tie.
pub open spec fn fight_from(c1: Character, c2: Character, m1: u64, m2: u64, rolls: Seq<RoundRolls>, k: int) -> bool
    decreases rolls.len() - k,
{
    if k < 0 || k >= rolls.len() {
        m1 <= m2
    } else {
        match round_end(c1, c2, m1, m2, rolls[k]) {
            RoundEnd::FirstWins => true,
            RoundEnd::SecondWins => false,
            RoundEnd::Continue(n1, n2) => fight_from(c1, c2, n1, n2, rolls, k + 1),
        }
    }
}

/// A whole fight with `c1` attacking first: true when `c1` wins.
pub open spec fn fight_outcome(c1: Character, c2: Character, rolls: Seq<RoundRolls>) -> bool {
    fight_from(c1, c2, 0, 0, rolls, 0)
}

/// Every roll of a round is one combat can produce.
pub open spec fn rolls_ok(r: RoundRolls) -> bool {
    combat_roll(r.attack1) && combat_roll(r.defence1) && combat_roll(r.attack2) && combat_roll(r.defence2)
}

/// Rolls for `MAX_ROUNDS` rounds, each one combat can produce.
pub open spec fn fight_rolls(rolls: Seq<RoundRolls>) -> bool {
    rolls.len() == MAX_ROUNDS && forall|k: int| 0 <= k < rolls.len() ==> rolls_ok(#[trigger] rolls[k])
}

/// `won` is the result of `do_1v1(c1, c2)` for some rolls.
pub open spec fn fight_result(c1: Character, c2: Character, won: bool) -> bool {
    exists|rolls: Seq<RoundRolls>| fight_rolls(rolls) && won == #[trigger] fight_outcome(c1, c2, rolls)
}

/// `won` is the result of `run(c1, c2)` for some rolls: the higher initiative
/// (`c1` on a tie) attacks first throughout.
pub open spec fn run_result(c1: Character, c2: Character, won: bool) -> bool {
    exists|i1: StressDie, i2: StressDie|
        #![trigger init_value(c1, i1), init_value(c2, i2)]
        combat_roll(i1) && combat_roll(i2) && if init_value(c1, i1) >= init_value(c2, i2) {
            fight_result(c1, c2, won)
        } else {
            fight_result(c2, c1, !won)
        }
}

/// The fight with the rounds `past` played is the fight from the round after
/// them, with malus `m1` and `m2`, whatever rolls follow.
pub open spec fn played(c1: Character, c2: Character, past: Seq<RoundRolls>, m1: u64, m2: u64) -> bool {
    forall|rest: Seq<RoundRolls>|
        #[trigger] fight_from(c1, c2, 0, 0, past + rest, 0) == fight_from(c1, c2, m1, m2, past + rest, past.len() as int)
}

proof fn lemma_play_round(c1: Character, c2: Character, past: Seq<RoundRolls>, m1: u64, m2: u64, r: RoundRolls, n1: u64, n2: u64)
    requires
        played(c1, c2, past, m1, m2),
        round_end(c1, c2, m1, m2, r) == RoundEnd::Continue(n1, n2),
    ensures
        played(c1, c2, past.push(r), n1, n2),
{
    assert forall|rest: Seq<RoundRolls>|
        #[trigger] fight_from(c1, c2, 0, 0, past.push(r) + rest, 0) == fight_from(c1, c2, n1, n2, past.push(r) + rest, past.len() + 1int) by {
        let rest2 = seq![r] + rest;
        assert(past.push(r) + rest =~= past + rest2);
        assert(fight_from(c1, c2, 0, 0, past + rest2, 0) == fight_from(c1, c2, m1, m2, past + rest2, past.len() as int));
        assert((past + rest2)[past.len() as int] == r);
    }
}

/// A round that ends the fight decides it, whatever rolls would follow.
proof fn lemma_final_round(c1: Character, c2: Character, past: Seq<RoundRolls>, m1: u64, m2: u64, r: RoundRolls)
    requires
        played(c1, c2, past, m1, m2),
        past.len() < MAX_ROUNDS,
        forall|k: int| 0 <= k < past.len() ==> rolls_ok(#[trigger] past[k]),
        rolls_ok(r),
        !(round_end(c1, c2, m1, m2, r) is Continue),
    ensures
        fight_result(c1, c2, round_end(c1, c2, m1, m2, r) == RoundEnd::FirstWins),
{
    let pad = Seq::new((MAX_ROUNDS - past.len() - 1) as nat, |i: int| r);
    let rest = seq![r] + pad;
    let w = past + rest;
    assert(fight_from(c1, c2, 0, 0, past + rest, 0) == fight_from(c1, c2, m1, m2, past + rest, past.len() as int));
    assert(w[past.len() as int] == r);
    assert forall|k: int| 0 <= k < w.len() implies rolls_ok(#[trigger] w[k]) by {
        if k < past.len() {
            assert(w[k] == past[k]);
        } else {
            assert(w[k] == r);
        }
    }
    assert(fight_rolls(w));
    assert(fight_from(c1, c2, m1, m2, w, past.len() as int) == (round_end(c1, c2, m1, m2, r) == RoundEnd::FirstWins));
    assert(fight_outcome(c1, c2, w) == (round_end(c1, c2, m1, m2, r) == RoundEnd::FirstWins));
}

pub struct Combat;

impl Combat {
    /// One fight: both roll initiative, the higher (`c1` on a tie) attacks
    /// first throughout; true when `c1` wins.
    pub fn run(c1: &Character, c2: &Character, dice: &mut Dice) -> (r: bool)
        requires
            can_fight(*c1, *c2),
        ensures
            run_result(*c1, *c2, r),
    {
        let init_c1 = c1.roll_init(dice);
        let init_c2 = c2.roll_init(dice);
        let ghost i1 = choose|roll: StressDie| combat_roll(roll) && init_c1 == init_value(*c1, roll);
        let ghost i2 = choose|roll: StressDie| combat_roll(roll) && init_c2 == init_value(*c2, roll);
        if init_c1 >= init_c2 {
            let r = Self::do_1v1(c1, c2, dice);
            assert(init_value(*c1, i1) >= init_value(*c2, i2) && fight_result(*c1, *c2, r));
            r
        } else {
            let won = Self::do_1v1(c2, c1, dice);
            assert(!(init_value(*c1, i1) >= init_value(*c2, i2)) && fight_result(*c2, *c1, won));
            !won
        }
    }

    /// A whole fight with `c1` attacking first, played with the given rolls
    /// round after round; true when `c1` wins.
    pub fn fight_with_rolls(c1: &Character, c2: &Character, rolls: &Vec<RoundRolls>) -> (r: bool)
        requires
            can_fight(*c1, *c2),
            rolls@.len() <= MAX_ROUNDS,
            forall|k: int| 0 <= k < rolls@.len() ==> rolls_ok(#[trigger] rolls@[k]),
        ensures
            r == fight_outcome(*c1, *c2, rolls@),
    {
        let mut malus_c1: u64 = 0;
        let mut malus_c2: u64 = 0;
        let mut k: usize = 0;
        while k < rolls.len()
            invariant
                k <= rolls@.len() <= MAX_ROUNDS,
                can_fight(*c1, *c2),
                forall|j: int| 0 <= j < rolls@.len() ==> rolls_ok(#[trigger] rolls@[j]),
                malus_c1 <= 5 * k,
                malus_c2 <= 5 * k,
                fight_outcome(*c1, *c2, rolls@) == fight_from(*c1, *c2, malus_c1, malus_c2, rolls@, k as int),
            decreases rolls@.len() - k,
        {
            match Self::resolve_round(c1, c2, malus_c1, malus_c2, rolls[k]) {
                RoundEnd::FirstWins => {
                    return true;
                },
                RoundEnd::SecondWins => {
                    return false;
                },
                RoundEnd::Continue(n1, n2) => {
                    malus_c1 = n1;
                    malus_c2 = n2;
                },
            }
            k = k + 1;
        }
        malus_c1 <= malus_c2
    }

    /// A fight decided with the given rolls: the initiative rolls `init1`
    /// and `init2` pick who attacks first (`c1` on a tie), then the round
    /// rolls play it out; true when `c1` wins.
    pub fn run_with_rolls(
        c1: &Character,
        c2: &Character,
        init1: StressDie,
        init2: StressDie,
        rolls: &Vec<RoundRolls>,
    ) -> (r: bool)
        requires
            can_fight(*c1, *c2),
            combat_roll(init1),
            combat_roll(init2),
            rolls@.len() <= MAX_ROUNDS,
            forall|k: int| 0 <= k < rolls@.len() ==> rolls_ok(#[trigger] rolls@[k]),
        ensures
            r == if init_value(*c1, init1) >= init_value(*c2, init2) {
                fight_outcome(*c1, *c2, rolls@)
            } else {
                !fight_outcome(*c2, *c1, rolls@)
            },
    {
        if c1.init_from(init1) >= c2.init_from(init2) {
            Self::fight_with_rolls(c1, c2, rolls)
        } else {
            !Self::fight_with_rolls(c2, c1, rolls)
        }
    }

    /// One round with the given rolls and malus.
    pub fn resolve_round(c1: &Character, c2: &Character, malus_c1: u64, malus_c2: u64, rolls: RoundRolls) -> (r: RoundEnd)
        requires
            rolls_ok(rolls),
            can_fight(*c1, *c2),
            malus_c1 <= u64::MAX - 5,
            malus_c2 <= u64::MAX - 5,
        ensures
            r == round_end(*c1, *c2, malus_c1, malus_c2, rolls),
            r is Continue ==> r->Continue_0 <= malus_c1 + 5 && r->Continue_1 <= malus_c2 + 5,
    {
        let first = Self::resolve_attack(c1, c2, malus_c1, malus_c2, rolls.attack1, rolls.defence1);
        let hurt2: u64 = match first {
            Malus::Ko => {
                return RoundEnd::FirstWins;
            },
            Malus::Wound(v) => malus_c2 + v as u64,
            Malus::Safe => malus_c2,
        };
        let second = Self::resolve_attack(c2, c1, hurt2, malus_c1, rolls.attack2, rolls.defence2);
        match second {
            Malus::Ko => RoundEnd::SecondWins,
            Malus::Wound(v) => RoundEnd::Continue(malus_c1 + v as u64, hurt2),
            Malus::Safe => RoundEnd::Continue(malus_c1, hurt2),
        }
    }

    /// Rounds of one attack each, `c1` first, with wounds accumulating as
    /// malus, until one side is knocked out (or `MAX_ROUNDS` have passed);
    /// true when `c1` wins.
    pub fn do_1v1(c1: &Character, c2: &Character, dice: &mut Dice) -> (r: bool)
        requires
            can_fight(*c1, *c2),
        ensures
            fight_result(*c1, *c2, r),
    {
        let mut malus_c1: u64 = 0;
        let mut malus_c2: u64 = 0;
        let mut round: u64 = 0;
        let ghost mut past: Seq<RoundRolls> = Seq::empty();
        proof {
            assert forall|rest: Seq<RoundRolls>|
                #[trigger] fight_from(*c1, *c2, 0, 0, past + rest, 0) == fight_from(*c1, *c2, 0, 0, past + rest, past.len() as int) by {}
        }
        while round < MAX_ROUNDS
            invariant
                can_fight(*c1, *c2),
                round <= MAX_ROUNDS,
                malus_c1 <= 5 * round,
                malus_c2 <= 5 * round,
                past.len() == round,
                forall|k: int| 0 <= k < past.len() ==> rolls_ok(#[trigger] past[k]),
                played(*c1, *c2, past, malus_c1, malus_c2),
            decreases MAX_ROUNDS - round,
        {
            let first = Self::run_attack(c1, c2, malus_c1, malus_c2, dice);
            let ghost a1 = choose|a: StressDie|
                exists|d: StressDie|
                    #[trigger] combat_roll(a) && combat_roll(d) && first == #[trigger] attack_outcome(
                        *c1,
                        *c2,
                        malus_c1 as int,
                        malus_c2 as int,
                        a,
                        d,
                    );
            let ghost d1 = choose|d: StressDie|
                combat_roll(a1) && combat_roll(d) && first == attack_outcome(*c1, *c2, malus_c1 as int, malus_c2 as int, a1, d);
            match first {
                Malus::Safe => {},
                Malus::Wound(v) => {
                    malus_c2 = malus_c2 + v as u64;
                },
                Malus::Ko => {
                    proof {
                        let r = RoundRolls { attack1: a1, defence1: d1, attack2: a1, defence2: a1 };
                        lemma_final_round(*c1, *c2, past, malus_c1, malus_c2, r);
                    }
                    return true;
                },
            }
            let second = Self::run_attack(c2, c1, malus_c2, malus_c1, dice);
            let ghost a2 = choose|a: StressDie|
                exists|d: StressDie|
                    #[trigger] combat_roll(a) && combat_roll(d) && second == #[trigger] attack_outcome(
                        *c2,
                        *c1,
                        malus_c2 as int,
                        malus_c1 as int,
                        a,
                        d,
                    );
            let ghost d2 = choose|d: StressDie|
                combat_roll(a2) && combat_roll(d) && second == attack_outcome(*c2, *c1, malus_c2 as int, malus_c1 as int, a2, d);
            let ghost r = RoundRolls { attack1: a1, defence1: d1, attack2: a2, defence2: d2 };
            let ghost old_m1 = malus_c1;
            let ghost old_m2 = (malus_c2 - wound_points(first)) as u64;
            match second {
                Malus::Safe => {},
                Malus::Wound(v) => {
                    malus_c1 = malus_c1 + v as u64;
                },
                Malus::Ko => {
                    proof {
                        lemma_final_round(*c1, *c2, past, old_m1, old_m2, r);
                    }
                    return false;
                },
            }
            proof {
                lemma_play_round(*c1, *c2, past, old_m1, old_m2, r, malus_c1, malus_c2);
                let pre = past;
                past = past.push(r);
                assert forall|k: int| 0 <= k < past.len() implies rolls_ok(#[trigger] past[k]) by {
                    if k < pre.len() {
                        assert(past[k] == pre[k]);
                    }
                }
            }
            round = round + 1;
        }
        proof {
            assert(past + Seq::empty() =~= past);
            assert(fight_from(*c1, *c2, 0, 0, past + Seq::empty(), 0) == fight_from(
                *c1,
                *c2,
                malus_c1,
                malus_c2,
                past + Seq::empty(),
                past.len() as int,
            ));
            assert(fight_rolls(past));
            assert(fight_outcome(*c1, *c2, past) == (malus_c1 <= malus_c2));
        }
        malus_c1 <= malus_c2
    }

    /// One attack by `c1` on `c2`: the defence is rolled only when the
    /// attack is not void.
    pub fn run_attack(c1: &Character, c2: &Character, malus_c1: u64, malus_c2: u64, dice: &mut Dice) -> (r: Malus)
        requires
            c2.size > -5,
        ensures
            exists|a: StressDie, d: StressDie|
                combat_roll(a) && combat_roll(d) && r == attack_outcome(
                    *c1,
                    *c2,
                    malus_c1 as int,
                    malus_c2 as int,
                    a,
                    d,
                ),
            light_enough(r),
    {
        let attack_roll = roll_stress_die(dice, 1);
        let total_attack = c1.attack_from(attack_roll) - malus_c1 as i128;
        let damage = c1.weapon.damage as i128 + c1.stats.str as i128;
        if total_attack <= 0 || total_attack + damage <= 0 {
            assert(Malus::Safe == attack_outcome(
                *c1,
                *c2,
                malus_c1 as int,
                malus_c2 as int,
                attack_roll,
                attack_roll,
            ));
            return Malus::Safe;
        }
        let defence_roll = roll_stress_die(dice, 1);
        Self::resolve_attack(c1, c2, malus_c1, malus_c2, attack_roll, defence_roll)
    }

    /// The outcome of an attack by `c1` on `c2` given both rolls.
    pub fn resolve_attack(
        c1: &Character,
        c2: &Character,
        malus_c1: u64,
        malus_c2: u64,
        attack_roll: StressDie,
        defence_roll: StressDie,
    ) -> (r: Malus)
        requires
            combat_roll(attack_roll),
            combat_roll(defence_roll),
            c2.size > -5,
        ensures
            r == attack_outcome(*c1, *c2, malus_c1 as int, malus_c2 as int, attack_roll, defence_roll),
            light_enough(r),
    {
        let total_attack = c1.attack_from(attack_roll) - malus_c1 as i128;
        let damage = c1.weapon.damage as i128 + c1.stats.str as i128;
        if total_attack <= 0 || total_attack + damage <= 0 {
            return Malus::Safe;
        }
        let total_defence = c2.defence_from(defence_roll) - malus_c2 as i128;
        if total_attack > total_defence {
            let soak = c2.default_soak as i64 + c2.armor.protection as i64;
            let raw = total_attack - total_defence + damage;
            let clamped: u64 = if raw < 0 {
                0
            } else if raw > u64::MAX as i128 {
                u64::MAX
            } else {
                raw as u64
            };
            let damage_level = Self::get_damage_level(clamped, soak, c2.size);
            if damage_level != 0 {
                Self::get_malus_level(damage_level)
            } else {
                Malus::Safe
            }
        } else {
            Malus::Safe
        }
    }

    /// The malus a wound level inflicts: 0, 1, 3 and 5 for levels zero to
    /// three, a knock-out beyond.
    pub fn get_malus_level(level: u8) -> (r: Malus)
        ensures
            r == malus_level(level as int),
            light_enough(r),
    {
        match level {
            0 => Malus::Wound(0),
            1 => Malus::Wound(1),
            2 => Malus::Wound(3),
            3 => Malus::Wound(5),
            _ => Malus::Ko,
        }
    }

    /// The wound level of `damage` against `soak_calc` on a target of size
    /// `size`, saturating at 255.
    pub fn get_damage_level(damage: u64, soak_calc: i64, size: i8) -> (r: u8)
        requires
            size > -5,
        ensures
            r == damage_level(damage as int, soak_calc as int, size as int),
    {
        let wound_range: u64 = (5 + size as i64) as u64;
        let soak: u64 = if soak_calc > 0 {
            soak_calc as u64
        } else {
            0
        };
        if damage <= soak {
            0
        } else {
            let level = (damage - soak - 1) / wound_range;
            if level >= 255 {
                255
            } else {
                (level + 1) as u8
            }
        }
    }
}

} // verus!
