use crate::dies::{bounded_stress, roll_stress_die, stress_outcome, Dice, StressDie, MAX_STRESS};
use crate::equipment::{Armor, Weapon};
use crate::stats::{is_unit, settled, Statistics};
use vstd::prelude::*;

verus! {

/// A special trait of a combatant.
#[derive(Debug, Clone, Copy, PartialEq, Eq, Structural)]
pub enum Virtue {
    Tough,
    GiantBlood,
    Large,
    ImprovedCharacteristics,
    GreatCharacteristics(Statistics),
    PuissantAbility,
    AffinityAbility,
    EnduringConstitution,
}

/// The virtue points a combatant may spend.
pub const POINTS_VIRTUES: u8 = 8;

/// The martial ability a freshly drawn combatant starts with.
pub const DEFAULT_MARTIAL_ABILITY: u8 = 6;

/// The number of virtues the random selection draws from; improved
/// characteristics are drawn on their own, one extra choice beside them.
pub const NB_POSSIBLE_VIRTUES: usize = 14;

/// The characteristic points of a combatant with no improved
/// characteristics; each of those adds three more.
pub const BASE_STAT_POINTS: u8 = 7;

/// A great characteristic names one of the eight characteristics.
pub open spec fn virtue_wf(v: Virtue) -> bool {
    match v {
        Virtue::GreatCharacteristics(s) => is_unit(s),
        _ => true,
    }
}

/// The virtue points one virtue costs.
pub open spec fn virtue_cost(v: Virtue) -> nat {
    if v == Virtue::GiantBlood {
        3
    } else {
        1
    }
}

/// How many times `v` occurs in `vs`.
pub open spec fn count_of(vs: Seq<Virtue>, v: Virtue) -> nat
    decreases vs.len(),
{
    if vs.len() == 0 {
        0
    } else {
        count_of(vs.drop_last(), v) + if vs.last() == v {
            1nat
        } else {
            0nat
        }
    }
}

/// The virtue points `vs` costs.
pub open spec fn virtues_cost(vs: Seq<Virtue>) -> nat
    decreases vs.len(),
{
    if vs.len() == 0 {
        0
    } else {
        virtues_cost(vs.drop_last()) + virtue_cost(vs.last())
    }
}

/// What one virtue adds to characteristic `i`.
pub open spec fn stat_delta(v: Virtue, i: int) -> int {
    match v {
        Virtue::GiantBlood => if i == 0 || i == 1 {
            1
        } else {
            0
        },
        Virtue::GreatCharacteristics(s) => s.at(i),
        _ => 0,
    }
}

/// What the virtues `vs` add to characteristic `i`.
pub open spec fn stat_bonus(vs: Seq<Virtue>, i: int) -> int
    decreases vs.len(),
{
    if vs.len() == 0 {
        0
    } else {
        stat_bonus(vs.drop_last(), i) + stat_delta(vs.last(), i)
    }
}

/// The size the virtues `vs` give to a combatant of size `base`.
pub open spec fn size_with(base: int, vs: Seq<Virtue>) -> int {
    base + 2 * count_of(vs, Virtue::GiantBlood) + count_of(vs, Virtue::Large)
}

/// The soak given by the virtues `vs` and the final stamina `sta`.
pub open spec fn soak_with(sta: int, vs: Seq<Virtue>) -> int {
    3 * count_of(vs, Virtue::Tough) + sta
}

/// Every virtue of `vs` is well formed.
pub open spec fn all_wf(vs: Seq<Virtue>) -> bool {
    forall|k: int| 0 <= k < vs.len() ==> virtue_wf(#[trigger] vs[k])
}

/// A set of virtues a combatant may hold: giant blood and large exclude each
/// other, the singleton virtues occur at most once, and the whole costs at
/// most `POINTS_VIRTUES`.
pub open spec fn virtues_valid(vs: Seq<Virtue>) -> bool {
    &&& all_wf(vs)
    &&& count_of(vs, Virtue::GiantBlood) + count_of(vs, Virtue::Large) <= 1
    &&& count_of(vs, Virtue::Tough) <= 1
    &&& count_of(vs, Virtue::PuissantAbility) <= 1
    &&& count_of(vs, Virtue::AffinityAbility) <= 1
    &&& count_of(vs, Virtue::EnduringConstitution) <= 1
    &&& virtues_cost(vs) <= POINTS_VIRTUES
}

/// The values derived from `base`, `size` and `ability` under the virtues
/// `vs` all fit in their types.
pub open spec fn derivable(base: Statistics, size: int, ability: int, vs: Seq<Virtue>) -> bool {
    &&& all_wf(vs)
    &&& forall|i: int| 0 <= i < 8 ==> i8::MIN <= base.at(i) + #[trigger] stat_bonus(vs, i) <= i8::MAX
    &&& i8::MIN <= size && size_with(size, vs) <= i8::MAX
    &&& i8::MIN <= soak_with(base.at(1) + stat_bonus(vs, 1), vs) <= i8::MAX
    &&& 0 <= ability && ability + count_of(vs, Virtue::AffinityAbility) <= u8::MAX
}

/// A combatant: its base values, its virtues, and the values those derive.
#[derive(Debug, Clone)]
pub struct Character {
    pub name: String,
    pub size: i8,
    pub default_size: i8,
    pub default_soak: i8,
    pub stats: Statistics,
    pub base_stats: Statistics,
    pub martial_ability: u8,
    pub base_martial_ability: u8,
    pub is_ability_puissant: bool,
    pub is_enduring: bool,
    pub weapon: Weapon,
    pub armor: Armor,
    pub virtues: Vec<Virtue>,
}

impl Character {
    /// The derived values are those the virtues give to the base values.
    pub open spec fn wf(&self) -> bool {
        &&& all_wf(self.virtues@)
        &&& forall|i: int|
            0 <= i < 8 ==> #[trigger] self.stats.at(i) == self.base_stats.at(i) + stat_bonus(
                self.virtues@,
                i,
            )
        &&& self.size == size_with(self.default_size as int, self.virtues@)
        &&& self.default_soak == soak_with(self.stats.sta as int, self.virtues@)
        &&& self.martial_ability == self.base_martial_ability + count_of(
            self.virtues@,
            Virtue::AffinityAbility,
        )
        &&& self.is_ability_puissant == (count_of(self.virtues@, Virtue::PuissantAbility) > 0)
        &&& self.is_enduring == (count_of(self.virtues@, Virtue::EnduringConstitution) > 0)
    }

    /// A combatant with the given base values and virtues, its derived values
    /// computed from them.
    pub fn new(
        name: String,
        race_size: i8,
        virtues: Vec<Virtue>,
        stats: Statistics,
        martial_ability: u8,
        weapon: Weapon,
        armor: Armor,
    ) -> (r: Self)
        requires
            derivable(stats, race_size as int, martial_ability as int, virtues@),
        ensures
            r.wf(),
            r.name == name,
            r.default_size == race_size,
            r.base_stats == stats,
            r.base_martial_ability == martial_ability,
            r.virtues@ == virtues@,
            r.weapon == weapon,
            r.armor == armor,
    {
        let mut character = Self {
            name,
            size: race_size,
            default_size: race_size,
            default_soak: 0,
            stats,
            base_stats: stats,
            martial_ability,
            base_martial_ability: martial_ability,
            is_ability_puissant: false,
            is_enduring: false,
            weapon,
            armor,
            virtues,
        };
        character.apply_virtues();
        character
    }

    /// Recomputes every derived value from the base values and the virtues.
    fn apply_virtues(&mut self)
        requires
            derivable(
                old(self).base_stats,
                old(self).default_size as int,
                old(self).base_martial_ability as int,
                old(self).virtues@,
            ),
        ensures
            final(self).wf(),
            final(self).name == old(self).name,
            final(self).default_size == old(self).default_size,
            final(self).base_stats == old(self).base_stats,
            final(self).base_martial_ability == old(self).base_martial_ability,
            final(self).virtues == old(self).virtues,
            final(self).weapon == old(self).weapon,
            final(self).armor == old(self).armor,
    {
        let ghost vs = self.virtues@;
        self.size = self.default_size;
        self.stats = self.base_stats;
        self.martial_ability = self.base_martial_ability;
        self.is_ability_puissant = false;
        self.is_enduring = false;
        let mut soak: i64 = 0;
        let mut k: usize = 0;
        while k < self.virtues.len()
            invariant
                k <= vs.len(),
                self.virtues@ == vs,
                self.virtues == old(self).virtues,
                self.name == old(self).name,
                self.default_size == old(self).default_size,
                self.base_stats == old(self).base_stats,
                self.base_martial_ability == old(self).base_martial_ability,
                self.weapon == old(self).weapon,
                self.armor == old(self).armor,
                derivable(self.base_stats, self.default_size as int, self.base_martial_ability as int, vs),
                forall|i: int|
                    0 <= i < 8 ==> #[trigger] self.stats.at(i) == self.base_stats.at(i) + stat_bonus(
                        vs.subrange(0, k as int),
                        i,
                    ),
                self.size == size_with(self.default_size as int, vs.subrange(0, k as int)),
                soak == 3 * count_of(vs.subrange(0, k as int), Virtue::Tough),
                self.martial_ability == self.base_martial_ability + count_of(
                    vs.subrange(0, k as int),
                    Virtue::AffinityAbility,
                ),
                self.is_ability_puissant == (count_of(vs.subrange(0, k as int), Virtue::PuissantAbility) > 0),
                self.is_enduring == (count_of(vs.subrange(0, k as int), Virtue::EnduringConstitution) > 0),
            decreases vs.len() - k,
        {
            let virtue = self.virtues[k];
            let ghost prev = self.stats;
            proof {
                lemma_prefix_step(vs, k as int);
                lemma_prefix_bounded(vs, k as int + 1);
                assert(i8::MIN <= self.base_stats.at(1) + stat_bonus(vs, 1) <= i8::MAX);
            }
            match virtue {
                Virtue::Tough => {
                    assert(count_of(vs.subrange(0, k + 1), Virtue::Tough) <= count_of(vs, Virtue::Tough));
                    soak = soak + 3;
                },
                Virtue::AffinityAbility => {
                    assert(count_of(vs.subrange(0, k + 1), Virtue::AffinityAbility) <= count_of(
                        vs,
                        Virtue::AffinityAbility,
                    ));
                    self.martial_ability = self.martial_ability + 1;
                },
                Virtue::PuissantAbility => {
                    self.is_ability_puissant = true;
                },
                Virtue::EnduringConstitution => {
                    self.is_enduring = true;
                },
                Virtue::GiantBlood => {
                    assert(count_of(vs.subrange(0, k + 1), Virtue::GiantBlood) <= count_of(vs, Virtue::GiantBlood));
                    assert(count_of(vs.subrange(0, k + 1), Virtue::Large) <= count_of(vs, Virtue::Large));
                    assert(stat_bonus(vs.subrange(0, k + 1), 0) <= stat_bonus(vs, 0));
                    assert(stat_bonus(vs.subrange(0, k + 1), 1) <= stat_bonus(vs, 1));
                    assert(self.stats.at(0) == self.base_stats.at(0) + stat_bonus(vs.subrange(0, k as int), 0));
                    assert(self.stats.at(1) == self.base_stats.at(1) + stat_bonus(vs.subrange(0, k as int), 1));
                    assert(self.base_stats.at(0) + stat_bonus(vs, 0) <= i8::MAX);
                    assert(self.base_stats.at(1) + stat_bonus(vs, 1) <= i8::MAX);
                    self.size = self.size + 2;
                    self.stats.str = self.stats.str + 1;
                    self.stats.sta = self.stats.sta + 1;
                },
                Virtue::Large => {
                    assert(count_of(vs.subrange(0, k + 1), Virtue::GiantBlood) <= count_of(vs, Virtue::GiantBlood));
                    assert(count_of(vs.subrange(0, k + 1), Virtue::Large) <= count_of(vs, Virtue::Large));
                    self.size = self.size + 1;
                },
                Virtue::ImprovedCharacteristics => {},
                Virtue::GreatCharacteristics(s) => {
                    assert forall|i: int| 0 <= i < 8 implies i8::MIN <= #[trigger] self.stats.at(i) + s.at(i)
                        <= i8::MAX by {
                        lemma_delta_nonneg(virtue, i);
                        assert(stat_bonus(vs.subrange(0, k + 1), i) <= stat_bonus(vs, i));
                        assert(i8::MIN <= self.base_stats.at(i) + stat_bonus(vs, i) <= i8::MAX);
                    }
                    crate::stats::add_ref(&mut self.stats, &s);
                },
            }
            proof {
                assert forall|i: int| 0 <= i < 8 implies #[trigger] self.stats.at(i) == self.base_stats.at(i)
                    + stat_bonus(vs.subrange(0, k + 1), i) by {
                    assert(self.stats.at(i) == prev.at(i) + stat_delta(virtue, i));
                }
            }
            k = k + 1;
        }
        proof {
            assert(vs.subrange(0, vs.len() as int) =~= vs);
            assert(self.stats.at(1) == self.base_stats.at(1) + stat_bonus(vs, 1));
        }
        self.default_soak = (soak + self.stats.sta as i64) as i8;
    }
}

proof fn lemma_prefix_step(vs: Seq<Virtue>, k: int)
    requires
        0 <= k < vs.len(),
    ensures
        vs.subrange(0, k + 1).drop_last() =~= vs.subrange(0, k),
        vs.subrange(0, k + 1).last() == vs[k],
{
}

/// Every prefix of `vs` adds no more than `vs` itself, and nothing negative.
proof fn lemma_prefix_bounded(vs: Seq<Virtue>, k: int)
    requires
        0 <= k <= vs.len(),
        all_wf(vs),
    ensures
        forall|v: Virtue| #[trigger] count_of(vs.subrange(0, k), v) <= count_of(vs, v),
        forall|i: int|
            0 <= i < 8 ==> 0 <= #[trigger] stat_bonus(vs.subrange(0, k), i) <= stat_bonus(vs, i),
    decreases vs.len(),
{
    if k == vs.len() {
        assert(vs.subrange(0, k) =~= vs);
        lemma_bonus_nonneg(vs);
    } else {
        let init = vs.drop_last();
        assert(init.subrange(0, k) =~= vs.subrange(0, k));
        assert(all_wf(init)) by {
            assert forall|j: int| 0 <= j < init.len() implies virtue_wf(#[trigger] init[j]) by {
                assert(init[j] == vs[j]);
            }
        }
        lemma_prefix_bounded(init, k);
        assert(virtue_wf(vs[vs.len() - 1]));
        assert forall|i: int| 0 <= i < 8 implies stat_delta(vs.last(), i) >= 0 by {
            lemma_delta_nonneg(vs.last(), i);
        }
    }
}

proof fn lemma_delta_nonneg(v: Virtue, i: int)
    requires
        virtue_wf(v),
        0 <= i < 8,
    ensures
        0 <= stat_delta(v, i) <= 1,
{
    if let Virtue::GreatCharacteristics(s) = v {
        let j = choose|j: int| 0 <= j < 8 && s == crate::stats::unit(j);
    }
}

proof fn lemma_bonus_nonneg(vs: Seq<Virtue>)
    requires
        all_wf(vs),
    ensures
        forall|i: int| 0 <= i < 8 ==> 0 <= #[trigger] stat_bonus(vs, i) <= vs.len(),
    decreases vs.len(),
{
    if vs.len() > 0 {
        let init = vs.drop_last();
        assert(all_wf(init)) by {
            assert forall|j: int| 0 <= j < init.len() implies virtue_wf(#[trigger] init[j]) by {
                assert(init[j] == vs[j]);
            }
        }
        lemma_bonus_nonneg(init);
        assert(virtue_wf(vs[vs.len() - 1]));
        assert forall|i: int| 0 <= i < 8 implies 0 <= #[trigger] stat_bonus(vs, i) <= vs.len() by {
            lemma_delta_nonneg(vs.last(), i);
            assert(0 <= stat_bonus(init, i) <= init.len());
        }
    }
}


/// The virtues the random selection draws from, in drawing order.
pub open spec fn possible_virtues() -> Seq<Virtue> {
    seq![
        Virtue::Tough,
        Virtue::GiantBlood,
        Virtue::Large,
        Virtue::GreatCharacteristics(crate::stats::unit(0)),
        Virtue::GreatCharacteristics(crate::stats::unit(1)),
        Virtue::GreatCharacteristics(crate::stats::unit(3)),
        Virtue::GreatCharacteristics(crate::stats::unit(2)),
        Virtue::GreatCharacteristics(crate::stats::unit(5)),
        Virtue::GreatCharacteristics(crate::stats::unit(6)),
        Virtue::GreatCharacteristics(crate::stats::unit(4)),
        Virtue::GreatCharacteristics(crate::stats::unit(7)),
        Virtue::PuissantAbility,
        Virtue::AffinityAbility,
        Virtue::EnduringConstitution,
    ]
}

/// The characteristic of `stats` that the unit vector `s` names.
pub open spec fn named_value(stats: Statistics, s: Statistics) -> int {
    stats.at(choose|i: int| 0 <= i < 8 && s == crate::stats::unit(i))
}

/// `v` may join the virtues `vs`, whose cost so far is `total`: the singleton
/// virtues only once, giant blood and large only when neither is present (giant
/// blood also only when its three points remain), and a great characteristic
/// only on a characteristic of `stats` at 3 or 4.
pub open spec fn can_add(stats: Statistics, v: Virtue, vs: Seq<Virtue>, total: int) -> bool {
    match v {
        Virtue::Large => count_of(vs, Virtue::GiantBlood) == 0 && count_of(vs, Virtue::Large) == 0,
        Virtue::GiantBlood => total <= POINTS_VIRTUES - 3 && count_of(vs, Virtue::GiantBlood) == 0
            && count_of(vs, Virtue::Large) == 0,
        Virtue::ImprovedCharacteristics => true,
        Virtue::GreatCharacteristics(s) => named_value(stats, s) == 3 || named_value(stats, s) == 4,
        _ => count_of(vs, v) == 0,
    }
}

/// A great characteristic is held only on a characteristic of `stats` at 3
/// or 4; other virtues pass.
pub open spec fn great_gate(stats: Statistics, v: Virtue) -> bool {
    match v {
        Virtue::GreatCharacteristics(s) => named_value(stats, s) == 3 || named_value(stats, s) == 4,
        _ => true,
    }
}

/// `v` is one of the virtues of the drawing order.
pub open spec fn drawable(v: Virtue) -> bool {
    exists|j: int| 0 <= j < NB_POSSIBLE_VIRTUES && #[trigger] possible_virtues()[j] == v
}

/// The virtues obtained by drawing `picks` in turn onto `vs` (costing
/// `total`, after `refused` refusals in a row): a draw that `can_add`
/// accepts joins them, and drawing stops once six draws in a row are refused
/// or `POINTS_VIRTUES` are spent.
pub open spec fn select_from(stats: Statistics, vs: Seq<Virtue>, total: int, refused: int, picks: Seq<usize>) -> Seq<Virtue>
    decreases picks.len(),
{
    if refused > 5 || total >= POINTS_VIRTUES || picks.len() == 0 {
        vs
    } else {
        let v = possible_virtues()[picks[0] as int];
        if can_add(stats, v, vs, total) {
            select_from(stats, vs.push(v), total + virtue_cost(v), 0, picks.drop_first())
        } else {
            select_from(stats, vs, total, refused + 1, picks.drop_first())
        }
    }
}

/// `picks` are exactly the draws that selection consumes: each names a
/// virtue of the drawing order, and the last one is the draw on which it
/// stops.
pub open spec fn draws_used(stats: Statistics, vs: Seq<Virtue>, total: int, refused: int, picks: Seq<usize>) -> bool
    decreases picks.len(),
{
    if refused > 5 || total >= POINTS_VIRTUES {
        picks.len() == 0
    } else if picks.len() == 0 || picks[0] >= NB_POSSIBLE_VIRTUES {
        false
    } else {
        let v = possible_virtues()[picks[0] as int];
        if can_add(stats, v, vs, total) {
            draws_used(stats, vs.push(v), total + virtue_cost(v), 0, picks.drop_first())
        } else {
            draws_used(stats, vs, total, refused + 1, picks.drop_first())
        }
    }
}

/// `result` is what selection gives from `vs`, costing `total`, for some
/// sequence of draws it consumes entirely.
pub open spec fn selected_by_draws(stats: Statistics, vs: Seq<Virtue>, total: int, result: Seq<Virtue>) -> bool {
    exists|picks: Seq<usize>|
        #[trigger] draws_used(stats, vs, total, 0, picks) && result == select_from(stats, vs, total, 0, picks)
}

/// Selection with the draws `picks` made so far from (`vs`, `total`) is
/// selection from (`now`, `now_total`, `refused`), whatever draws follow.
pub open spec fn drawn_so_far(
    stats: Statistics,
    vs: Seq<Virtue>,
    total: int,
    picks: Seq<usize>,
    now: Seq<Virtue>,
    now_total: int,
    refused: int,
) -> bool {
    &&& forall|rest: Seq<usize>|
        #[trigger] draws_used(stats, vs, total, 0, picks + rest) == draws_used(stats, now, now_total, refused, rest)
    &&& forall|rest: Seq<usize>|
        #[trigger] select_from(stats, vs, total, 0, picks + rest) == select_from(stats, now, now_total, refused, rest)
}

proof fn lemma_draw(
    stats: Statistics,
    vs: Seq<Virtue>,
    total: int,
    picks: Seq<usize>,
    now: Seq<Virtue>,
    now_total: int,
    refused: int,
    p: usize,
)
    requires
        drawn_so_far(stats, vs, total, picks, now, now_total, refused),
        refused <= 5,
        now_total < POINTS_VIRTUES,
        p < NB_POSSIBLE_VIRTUES,
    ensures
        ({
            let v = possible_virtues()[p as int];
            if can_add(stats, v, now, now_total) {
                drawn_so_far(stats, vs, total, picks.push(p), now.push(v), now_total + virtue_cost(v), 0)
            } else {
                drawn_so_far(stats, vs, total, picks.push(p), now, now_total, refused + 1)
            }
        }),
{
    assert forall|rest: Seq<usize>| #[trigger] (picks.push(p) + rest) == picks + (seq![p] + rest) by {
        assert(picks.push(p) + rest =~= picks + (seq![p] + rest));
    }
    assert forall|rest: Seq<usize>| (seq![p] + rest).drop_first() == rest && (seq![p] + rest)[0] == p by {
        assert((seq![p] + rest).drop_first() =~= rest);
    }
    assert forall|rest: Seq<usize>|
        #[trigger] draws_used(stats, vs, total, 0, picks.push(p) + rest) == draws_used(
            stats,
            now,
            now_total,
            refused,
            seq![p] + rest,
        ) by {
        assert(picks.push(p) + rest == picks + (seq![p] + rest));
    }
    assert forall|rest: Seq<usize>|
        #[trigger] select_from(stats, vs, total, 0, picks.push(p) + rest) == select_from(
            stats,
            now,
            now_total,
            refused,
            seq![p] + rest,
        ) by {
        assert(picks.push(p) + rest == picks + (seq![p] + rest));
    }
}

/// The virtues of `vs` that the draws `drops` keep (a true draw drops the
/// virtue at its position), in order.
pub open spec fn kept_of(vs: Seq<Virtue>, drops: Seq<bool>) -> Seq<Virtue>
    decreases vs.len(),
{
    if vs.len() == 0 || drops.len() == 0 {
        Seq::empty()
    } else {
        let kept = kept_of(vs.drop_last(), drops.drop_last());
        if drops.last() {
            kept
        } else {
            kept.push(vs.last())
        }
    }
}

/// `vs` holds improved characteristics up to position `m`, then virtues
/// selected by draws on `stats`.
pub open spec fn improved_then_drawn(stats: Statistics, vs: Seq<Virtue>, from: int, m: int) -> bool {
    &&& from <= m <= vs.len()
    &&& forall|k: int| from <= k < m ==> #[trigger] vs[k] == Virtue::ImprovedCharacteristics
    &&& selected_by_draws(stats, vs.subrange(0, m), virtues_cost(vs.subrange(0, m)) as int, vs)
}

/// A random combatant's virtues: improved characteristics first, then
/// virtues selected by draws on `stats`.
pub open spec fn drawn_virtues(stats: Statistics, vs: Seq<Virtue>) -> bool {
    exists|m: int| #[trigger] improved_then_drawn(stats, vs, 0, m)
}

/// A mutation's virtues: the parent's virtues that some keep/drop draws
/// keep (all of them at rate zero), then improved characteristics, then
/// virtues selected by draws on `stats`.
pub open spec fn inherited_virtues(parent: Seq<Virtue>, child: Seq<Virtue>, stats: Statistics, mutation: int) -> bool {
    exists|drops: Seq<bool>, m: int|
        #![trigger kept_of(parent, drops), improved_then_drawn(stats, child, kept_of(parent, drops).len() as int, m)]
        drops.len() == parent.len() && (mutation == 0 ==> forall|k: int| 0 <= k < drops.len() ==> !#[trigger] drops[k])
            && child.subrange(0, kept_of(parent, drops).len() as int) == kept_of(parent, drops)
            && improved_then_drawn(stats, child, kept_of(parent, drops).len() as int, m)
}

/// `child` is a mutation of `parent` made for position `index`: named after
/// the position in decimal, with the parent's size and equipment and the
/// default martial ability.
pub open spec fn offspring(child: Character, parent: Character, index: usize) -> bool {
    &&& vstd::string::to_string_from_display_ensures::<usize>(&index, child.name)
    &&& child.default_size == parent.default_size
    &&& child.weapon == parent.weapon
    &&& child.armor == parent.armor
    &&& child.base_martial_ability == DEFAULT_MARTIAL_ABILITY
}

/// The characteristic points that the improved characteristics among `vs`
/// allow.
pub open spec fn stat_points(vs: Seq<Virtue>) -> int {
    BASE_STAT_POINTS + 3 * count_of(vs, Virtue::ImprovedCharacteristics)
}

/// The ability a combatant adds to a roll: doubled when exerting, two more when
/// puissant.
pub open spec fn ability_points(c: Character, exert: bool) -> int {
    c.martial_ability * (if exert {
        2int
    } else {
        1int
    }) + if c.is_ability_puissant {
        2int
    } else {
        0int
    }
}

/// An initiative total for the stress die `roll`; a botch counts as zero.
pub open spec fn init_value(c: Character, roll: StressDie) -> int {
    match roll {
        StressDie::BOTCH => 0,
        StressDie::DIE(d) => d + c.stats.qik + c.weapon.init,
    }
}

/// An attack total for the stress die `roll`; a botch counts as zero.
pub open spec fn attack_value(c: Character, roll: StressDie) -> int {
    match roll {
        StressDie::BOTCH => 0,
        StressDie::DIE(d) => d + c.stats.dex + c.weapon.attack + ability_points(c, false),
    }
}

/// A defence total for the stress die `roll`; a botch counts as zero.
pub open spec fn defence_value(c: Character, roll: StressDie) -> int {
    match roll {
        StressDie::BOTCH => 0,
        StressDie::DIE(d) => d + c.stats.qik + c.weapon.defence + ability_points(c, false),
    }
}

/// A stress die with one botch die, as combat rolls it.
pub open spec fn combat_roll(roll: StressDie) -> bool {
    stress_outcome(roll, 1) && bounded_stress(roll)
}

/// `a` and `b` agree on everything but their virtues.
pub open spec fn same_but_virtues(a: Character, b: Character) -> bool {
    &&& a.name == b.name
    &&& a.size == b.size
    &&& a.default_size == b.default_size
    &&& a.default_soak == b.default_soak
    &&& a.stats == b.stats
    &&& a.base_stats == b.base_stats
    &&& a.martial_ability == b.martial_ability
    &&& a.base_martial_ability == b.base_martial_ability
    &&& a.is_ability_puissant == b.is_ability_puissant
    &&& a.is_enduring == b.is_enduring
    &&& a.weapon == b.weapon
    &&& a.armor == b.armor
}

/// The virtue at position `index` of the drawing order.
fn possible_virtue(index: usize) -> (r: Virtue)
    requires
        index < NB_POSSIBLE_VIRTUES,
    ensures
        r == possible_virtues()[index as int],
        virtue_wf(r),
        r != Virtue::ImprovedCharacteristics,
{
    proof {
        lemma_unit_is_unit(0);
        lemma_unit_is_unit(1);
        lemma_unit_is_unit(2);
        lemma_unit_is_unit(3);
        lemma_unit_is_unit(4);
        lemma_unit_is_unit(5);
        lemma_unit_is_unit(6);
        lemma_unit_is_unit(7);
    }
    match index {
        0 => Virtue::Tough,
        1 => Virtue::GiantBlood,
        2 => Virtue::Large,
        3 => Virtue::GreatCharacteristics(Statistics::unit(crate::stats::STR)),
        4 => Virtue::GreatCharacteristics(Statistics::unit(crate::stats::STA)),
        5 => Virtue::GreatCharacteristics(Statistics::unit(crate::stats::QIK)),
        6 => Virtue::GreatCharacteristics(Statistics::unit(crate::stats::DEX)),
        7 => Virtue::GreatCharacteristics(Statistics::unit(crate::stats::PER)),
        8 => Virtue::GreatCharacteristics(Statistics::unit(crate::stats::PRE)),
        9 => Virtue::GreatCharacteristics(Statistics::unit(crate::stats::INT)),
        10 => Virtue::GreatCharacteristics(Statistics::unit(crate::stats::COM)),
        11 => Virtue::PuissantAbility,
        12 => Virtue::AffinityAbility,
        _ => Virtue::EnduringConstitution,
    }
}

proof fn lemma_unit_is_unit(i: int)
    requires
        0 <= i < 8,
    ensures
        is_unit(crate::stats::unit(i)),
{
}

/// How many times `v` occurs in `virtues`.
fn occurrences(virtues: &[Virtue], v: Virtue) -> (r: usize)
    ensures
        r == count_of(virtues@, v),
{
    let mut n: usize = 0;
    let mut k: usize = 0;
    while k < virtues.len()
        invariant
            k <= virtues@.len(),
            n == count_of(virtues@.subrange(0, k as int), v),
            n <= k,
        decreases virtues@.len() - k,
    {
        proof {
            lemma_prefix_step(virtues@, k as int);
        }
        if virtues[k] == v {
            n = n + 1;
        }
        k = k + 1;
    }
    proof {
        assert(virtues@.subrange(0, virtues@.len() as int) =~= virtues@);
    }
    n
}

proof fn lemma_push(vs: Seq<Virtue>, v: Virtue)
    ensures
        vs.push(v).drop_last() =~= vs,
        forall|w: Virtue| #[trigger] count_of(vs.push(v), w) == count_of(vs, w) + if v == w {
            1nat
        } else {
            0nat
        },
        virtues_cost(vs.push(v)) == virtues_cost(vs) + virtue_cost(v),
{
    assert(vs.push(v).drop_last() =~= vs);
}

/// Adding a virtue that `can_add` accepts keeps a set of virtues valid.
proof fn lemma_add_valid(stats: Statistics, vs: Seq<Virtue>, v: Virtue, total: int)
    requires
        virtues_valid(vs),
        total == virtues_cost(vs),
        total < POINTS_VIRTUES,
        can_add(stats, v, vs, total),
        virtue_wf(v),
    ensures
        virtues_valid(vs.push(v)),
        virtues_cost(vs.push(v)) == total + virtue_cost(v),
{
    lemma_push(vs, v);
    assert forall|k: int| 0 <= k < vs.push(v).len() implies virtue_wf(#[trigger] vs.push(v)[k]) by {
        if k < vs.len() {
            assert(vs.push(v)[k] == vs[k]);
        }
    }
    assert(count_of(vs.push(v), Virtue::GiantBlood) == count_of(vs, Virtue::GiantBlood) + if v
        == Virtue::GiantBlood {
        1nat
    } else {
        0nat
    });
    assert(count_of(vs.push(v), Virtue::Large) == count_of(vs, Virtue::Large) + if v == Virtue::Large {
        1nat
    } else {
        0nat
    });
    assert(count_of(vs.push(v), Virtue::Tough) == count_of(vs, Virtue::Tough) + if v == Virtue::Tough {
        1nat
    } else {
        0nat
    });
    assert(count_of(vs.push(v), Virtue::PuissantAbility) == count_of(vs, Virtue::PuissantAbility) + if v
        == Virtue::PuissantAbility {
        1nat
    } else {
        0nat
    });
    assert(count_of(vs.push(v), Virtue::AffinityAbility) == count_of(vs, Virtue::AffinityAbility) + if v
        == Virtue::AffinityAbility {
        1nat
    } else {
        0nat
    });
    assert(count_of(vs.push(v), Virtue::EnduringConstitution) == count_of(
        vs,
        Virtue::EnduringConstitution,
    ) + if v == Virtue::EnduringConstitution {
        1nat
    } else {
        0nat
    });
}

impl Character {
    /// The virtue points the virtues cost, saturating at `u8::MAX`.
    fn count_virtues(&self) -> (r: u8)
        ensures
            r == if virtues_cost(self.virtues@) <= u8::MAX {
                virtues_cost(self.virtues@)
            } else {
                u8::MAX as nat
            },
    {
        let ghost vs = self.virtues@;
        let mut total: u8 = 0;
        let mut k: usize = 0;
        while k < self.virtues.len()
            invariant
                k <= vs.len(),
                vs == self.virtues@,
                total == if virtues_cost(vs.subrange(0, k as int)) <= u8::MAX {
                    virtues_cost(vs.subrange(0, k as int))
                } else {
                    u8::MAX as nat
                },
            decreases vs.len() - k,
        {
            proof {
                lemma_prefix_step(vs, k as int);
            }
            let cost: u8 = if self.virtues[k] == Virtue::GiantBlood {
                3
            } else {
                1
            };
            total = total.saturating_add(cost);
            k = k + 1;
        }
        proof {
            assert(vs.subrange(0, vs.len() as int) =~= vs);
        }
        total
    }

    /// Whether `virtue` may join `virtues`, whose cost so far is
    /// `total_virtues`; a great characteristic is judged on this combatant's
    /// characteristics.
    pub fn is_valid(&self, virtue: &Virtue, virtues: &[Virtue], total_virtues: &u8) -> (r: bool)
        requires
            virtue_wf(*virtue),
        ensures
            r == can_add(self.stats, *virtue, virtues@, *total_virtues as int),
    {
        match *virtue {
            Virtue::Large => occurrences(virtues, Virtue::GiantBlood) == 0 && occurrences(
                virtues,
                Virtue::Large,
            ) == 0,
            Virtue::GiantBlood => *total_virtues <= POINTS_VIRTUES - 3 && occurrences(
                virtues,
                Virtue::GiantBlood,
            ) == 0 && occurrences(virtues, Virtue::Large) == 0,
            Virtue::ImprovedCharacteristics => true,
            Virtue::GreatCharacteristics(s) => {
                let value = self.stats.retrieve_from_static(&s);
                proof {
                    let i = choose|i: int| 0 <= i < 8 && s == crate::stats::unit(i);
                }
                value == 3 || value == 4
            },
            _ => occurrences(virtues, *virtue) == 0,
        }
    }

    /// Draws virtues from the drawing order and keeps those `is_valid`
    /// accepts, until `POINTS_VIRTUES` are spent or six draws in a row are
    /// refused.
    fn randomize_virtues(&mut self, total_virtues: u8, dice: &mut Dice)
        requires
            virtues_valid(old(self).virtues@),
            total_virtues == virtues_cost(old(self).virtues@),
        ensures
            virtues_valid(final(self).virtues@),
            same_but_virtues(*final(self), *old(self)),
            old(self).virtues@.len() <= final(self).virtues@.len(),
            final(self).virtues@.subrange(0, old(self).virtues@.len() as int) == old(self).virtues@,
            count_of(final(self).virtues@, Virtue::ImprovedCharacteristics) == count_of(
                old(self).virtues@,
                Virtue::ImprovedCharacteristics,
            ),
            forall|k: int|
                old(self).virtues@.len() <= k < final(self).virtues@.len() ==> drawable(
                    #[trigger] final(self).virtues@[k],
                ) && great_gate(final(self).stats, final(self).virtues@[k]),
            selected_by_draws(final(self).stats, old(self).virtues@, total_virtues as int, final(self).virtues@),
    {
        let mut total: u8 = total_virtues;
        let mut refused: u8 = 0;
        let ghost mut picks: Seq<usize> = Seq::empty();
        proof {
            assert forall|rest: Seq<usize>| #[trigger] (picks + rest) == rest by {
                assert(picks + rest =~= rest);
            }
        }
        while refused <= 5 && total < POINTS_VIRTUES
            invariant
                refused <= 6,
                total <= POINTS_VIRTUES,
                total == virtues_cost(self.virtues@),
                virtues_valid(self.virtues@),
                same_but_virtues(*self, *old(self)),
                old(self).virtues@.len() <= self.virtues@.len(),
                self.virtues@.subrange(0, old(self).virtues@.len() as int) == old(self).virtues@,
                count_of(self.virtues@, Virtue::ImprovedCharacteristics) == count_of(
                    old(self).virtues@,
                    Virtue::ImprovedCharacteristics,
                ),
                forall|k: int|
                    old(self).virtues@.len() <= k < self.virtues@.len() ==> drawable(
                        #[trigger] self.virtues@[k],
                    ) && great_gate(self.stats, self.virtues@[k]),
                drawn_so_far(self.stats, old(self).virtues@, total_virtues as int, picks, self.virtues@, total as int, refused as int),
            decreases (POINTS_VIRTUES - total) * 7 + 6 - refused,
        {
            let index = dice.below(NB_POSSIBLE_VIRTUES);
            let pick = possible_virtue(index);
            let ghost before = self.virtues@;
            proof {
                lemma_draw(self.stats, old(self).virtues@, total_virtues as int, picks, self.virtues@, total as int, refused as int, index);
                picks = picks.push(index);
            }
            if self.is_valid(&pick, self.virtues.as_slice(), &total) {
                proof {
                    assert(drawable(pick));
                    lemma_add_valid(self.stats, self.virtues@, pick, total as int);
                    lemma_push(self.virtues@, pick);
                    assert(count_of(self.virtues@.push(pick), Virtue::ImprovedCharacteristics) == count_of(
                        self.virtues@,
                        Virtue::ImprovedCharacteristics,
                    ));
                    assert(self.virtues@.push(pick).subrange(0, old(self).virtues@.len() as int)
                        =~= self.virtues@.subrange(0, old(self).virtues@.len() as int));
                }
                refused = 0;
                total = if pick == Virtue::GiantBlood {
                    total + 3
                } else {
                    total + 1
                };
                self.virtues.push(pick);
                proof {
                    assert forall|k: int|
                        old(self).virtues@.len() <= k < self.virtues@.len() implies drawable(
                            #[trigger] self.virtues@[k],
                        ) && great_gate(self.stats, self.virtues@[k]) by {
                        if k < before.len() {
                            assert(self.virtues@[k] == before[k]);
                        }
                    }
                }
            } else {
                refused = refused + 1;
            }
        }
        proof {
            assert(picks + Seq::<usize>::empty() =~= picks);
            assert(draws_used(self.stats, old(self).virtues@, total_virtues as int, 0, picks + Seq::<usize>::empty()));
            assert(select_from(self.stats, old(self).virtues@, total_virtues as int, 0, picks + Seq::<usize>::empty()) == self.virtues@);
        }
    }
}

proof fn lemma_count_le_len(vs: Seq<Virtue>, v: Virtue)
    ensures
        count_of(vs, v) <= vs.len(),
        vs.len() <= virtues_cost(vs),
    decreases vs.len(),
{
    if vs.len() > 0 {
        lemma_count_le_len(vs.drop_last(), v);
    }
}

/// Valid virtues on in-range characteristics derive values that fit.
proof fn lemma_valid_derivable(base: Statistics, size: int, ability: int, vs: Seq<Virtue>)
    requires
        virtues_valid(vs),
        base.in_range(),
        i8::MIN <= size <= i8::MAX - 2,
        0 <= ability <= u8::MAX - 1,
    ensures
        derivable(base, size, ability, vs),
{
    lemma_count_le_len(vs, Virtue::Tough);
    lemma_bonus_nonneg(vs);
    assert(0 <= stat_bonus(vs, 1) <= vs.len());
    assert forall|i: int| 0 <= i < 8 implies i8::MIN <= base.at(i) + #[trigger] stat_bonus(vs, i)
        <= i8::MAX by {
        assert(0 <= stat_bonus(vs, i) <= vs.len());
    }
}

/// Virtues gated on `stats` are gated on `base` when the two agree.
proof fn lemma_gate_on_base(stats: Statistics, base: Statistics, vs: Seq<Virtue>, from: int)
    requires
        all_wf(vs),
        forall|i: int| 0 <= i < 8 ==> #[trigger] stats.at(i) == base.at(i),
        forall|k: int| 0 <= k < from && k < vs.len() ==> #[trigger] vs[k] == Virtue::ImprovedCharacteristics,
        forall|k: int| from <= k < vs.len() ==> great_gate(stats, #[trigger] vs[k]),
    ensures
        forall|k: int| 0 <= k < vs.len() ==> great_gate(base, #[trigger] vs[k]),
{
    assert forall|k: int| 0 <= k < vs.len() implies great_gate(base, #[trigger] vs[k]) by {
        if k >= from {
            if let Virtue::GreatCharacteristics(st) = vs[k] {
                let j = choose|j: int| 0 <= j < 8 && st == crate::stats::unit(j);
                assert(stats.at(j) == base.at(j));
            }
        }
    }
}

/// A sequence made only of improved characteristics.
proof fn lemma_all_improved(vs: Seq<Virtue>)
    requires
        forall|k: int| 0 <= k < vs.len() ==> #[trigger] vs[k] == Virtue::ImprovedCharacteristics,
    ensures
        forall|v: Virtue|
            #[trigger] count_of(vs, v) == if v == Virtue::ImprovedCharacteristics {
                vs.len()
            } else {
                0
            },
        virtues_cost(vs) == vs.len(),
        all_wf(vs),
    decreases vs.len(),
{
    if vs.len() > 0 {
        let init = vs.drop_last();
        assert forall|k: int| 0 <= k < init.len() implies #[trigger] init[k]
            == Virtue::ImprovedCharacteristics by {
            assert(init[k] == vs[k]);
        }
        lemma_all_improved(init);
        assert(vs.last() == Virtue::ImprovedCharacteristics);
        assert forall|v: Virtue|
            #[trigger] count_of(vs, v) == if v == Virtue::ImprovedCharacteristics {
                vs.len()
            } else {
                0
            } by {
            assert(count_of(vs, v) == count_of(init, v) + if vs.last() == v {
                1nat
            } else {
                0nat
            });
        }
    }
}

impl Character {
    /// A random combatant: improved characteristics drawn first (each of the
    /// `POINTS_VIRTUES` draws picks one with chance one in fifteen), then
    /// characteristics under the points they allow, then the remaining
    /// virtues; it carries a great sword and custom armor.
    #[verifier::rlimit(40)]
    pub fn randomize(name: String, dice: &mut Dice) -> (r: Self)
        ensures
            r.wf(),
            virtues_valid(r.virtues@),
            r.base_stats.in_range(),
            0 <= r.base_stats.total_cost() <= stat_points(r.virtues@),
            r.name == name,
            r.default_size == 0,
            r.base_martial_ability == DEFAULT_MARTIAL_ABILITY,
            r.weapon.init == 2 && r.weapon.attack == 5 && r.weapon.defence == 2 && r.weapon.damage == 9,
            r.armor.protection == 6,
            r.weapon.name@ == "Great Sword"@,
            r.armor.name@ == "Full Mail"@,
            forall|k: int| 0 <= k < r.virtues@.len() ==> great_gate(r.base_stats, #[trigger] r.virtues@[k]),
            drawn_virtues(r.base_stats, r.virtues@),
    {
        let mut virtues: Vec<Virtue> = Vec::new();
        let mut j: u8 = 0;
        while j < POINTS_VIRTUES
            invariant
                j <= POINTS_VIRTUES,
                virtues@.len() <= j,
                forall|k: int|
                    0 <= k < virtues@.len() ==> #[trigger] virtues@[k] == Virtue::ImprovedCharacteristics,
            decreases POINTS_VIRTUES - j,
        {
            if dice.below(NB_POSSIBLE_VIRTUES + 1) == 0 {
                virtues.push(Virtue::ImprovedCharacteristics);
            }
            j = j + 1;
        }
        let nb_improved = virtues.len() as u8;
        let stats = Statistics::randomize(BASE_STAT_POINTS + 3 * nb_improved, dice);
        let empty: Vec<Virtue> = Vec::new();
        proof {
            assert(forall|v: Virtue| count_of(empty@, v) == 0);
            assert(forall|i: int| stat_bonus(empty@, i) == 0);
        }
        let mut character = Self::new(
            name,
            0,
            empty,
            stats,
            DEFAULT_MARTIAL_ABILITY,
            Weapon::great_sword(),
            Armor::custom(),
        );
        character.virtues = virtues;
        proof {
            lemma_all_improved(virtues@);
        }
        let ghost drawn_from = character.virtues@;
        proof {
            assert forall|i: int| 0 <= i < 8 implies #[trigger] character.stats.at(i) == character.base_stats.at(i) by {
                assert(character.stats.at(i) == character.base_stats.at(i) + stat_bonus(empty@, i));
            }
        }
        proof {
            crate::stats::lemma_at_ext(character.stats, character.base_stats);
        }
        character.randomize_virtues(nb_improved, dice);
        proof {
            let m = drawn_from.len() as int;
            assert(character.virtues@.subrange(0, m) == drawn_from);
            assert(improved_then_drawn(character.base_stats, character.virtues@, 0, m)) by {
                assert forall|k: int| 0 <= k < m implies #[trigger] character.virtues@[k]
                    == Virtue::ImprovedCharacteristics by {
                    assert(character.virtues@[k] == drawn_from[k]);
                }
            }
            assert forall|k: int| 0 <= k < drawn_from.len() && k < character.virtues@.len() implies #[trigger] character.virtues@[k]
                == Virtue::ImprovedCharacteristics by {
                assert(character.virtues@[k] == character.virtues@.subrange(0, drawn_from.len() as int)[k]);
            }
            lemma_gate_on_base(character.stats, character.base_stats, character.virtues@, drawn_from.len() as int);
            lemma_valid_derivable(
                character.base_stats,
                character.default_size as int,
                character.base_martial_ability as int,
                character.virtues@,
            );
        }
        character.apply_virtues();
        character
    }

    /// A mutated copy named after `i`: each virtue is dropped with chance
    /// `mutation` in 100, improved characteristics may be drawn for the freed
    /// points, the base characteristics are mutated under the points those
    /// allow (drawn afresh when they no longer fit), the remaining virtues
    /// are drawn again, and the martial ability returns to its default.
    #[verifier::rlimit(40)]
    pub fn mutate(&self, mutation: u32, i: usize, dice: &mut Dice) -> (r: Character)
        requires
            virtues_valid(self.virtues@),
            mutation <= 100,
            self.default_size <= i8::MAX - 2,
        ensures
            r.wf(),
            virtues_valid(r.virtues@),
            r.base_stats.in_range(),
            r.base_stats.total_cost() <= stat_points(r.virtues@),
            offspring(r, *self, i),
            mutation == 0 ==> r.virtues@.subrange(0, self.virtues@.len() as int) == self.virtues@,
            inherited_virtues(self.virtues@, r.virtues@, r.base_stats, mutation as int),
            self.base_stats.in_range() && self.base_stats.total_cost() <= stat_points(r.virtues@) ==> {
                &&& settled(r.base_stats, stat_points(r.virtues@))
                &&& mutation == 0 ==> forall|k: int|
                    0 <= k < 8 ==> #[trigger] r.base_stats.at(k) >= self.base_stats.at(k)
            },
    {
        let ghost vs = self.virtues@;
        let mut kept: Vec<Virtue> = Vec::new();
        let ghost mut drops: Seq<bool> = Seq::empty();
        let mut k: usize = 0;
        while k < self.virtues.len()
            invariant
                k <= vs.len(),
                vs == self.virtues@,
                mutation <= 100,
                all_wf(vs),
                all_wf(kept@),
                forall|v: Virtue| #[trigger] count_of(kept@, v) <= count_of(vs.subrange(0, k as int), v),
                virtues_cost(kept@) <= virtues_cost(vs.subrange(0, k as int)),
                mutation == 0 ==> kept@ == vs.subrange(0, k as int),
                drops.len() == k,
                kept@ == kept_of(vs.subrange(0, k as int), drops),
                mutation == 0 ==> forall|j: int| 0 <= j < drops.len() ==> !#[trigger] drops[j],
            decreases vs.len() - k,
        {
            let v = self.virtues[k];
            let ghost before = kept@;
            proof {
                lemma_prefix_step(vs, k as int);
                lemma_push(before, v);
            }
            let dropped = dice.ratio(mutation, 100);
            if !dropped {
                kept.push(v);
            }
            proof {
                let pre = drops;
                drops = drops.push(dropped);
                assert(drops.drop_last() =~= pre);
                assert forall|j: int| 0 <= j < drops.len() && mutation == 0 implies !#[trigger] drops[j] by {
                    if j < pre.len() {
                        assert(drops[j] == pre[j]);
                    }
                }
            }
            proof {
                assert forall|w: Virtue| #[trigger] count_of(kept@, w) <= count_of(
                    vs.subrange(0, k + 1),
                    w,
                ) by {
                    assert(count_of(before, w) <= count_of(vs.subrange(0, k as int), w));
                }
                assert forall|j: int| 0 <= j < kept@.len() implies virtue_wf(#[trigger] kept@[j]) by {
                    if j < before.len() {
                        assert(kept@[j] == before[j]);
                    }
                }
                assert(vs.subrange(0, k + 1) =~= vs.subrange(0, k as int).push(v));
            }
            k = k + 1;
        }
        proof {
            assert(vs.subrange(0, vs.len() as int) =~= vs);
            assert(count_of(kept@, Virtue::GiantBlood) <= count_of(vs, Virtue::GiantBlood));
            assert(count_of(kept@, Virtue::Large) <= count_of(vs, Virtue::Large));
            assert(count_of(kept@, Virtue::Tough) <= count_of(vs, Virtue::Tough));
            assert(count_of(kept@, Virtue::PuissantAbility) <= count_of(vs, Virtue::PuissantAbility));
            assert(count_of(kept@, Virtue::AffinityAbility) <= count_of(vs, Virtue::AffinityAbility));
            assert(count_of(kept@, Virtue::EnduringConstitution) <= count_of(
                vs,
                Virtue::EnduringConstitution,
            ));
        }
        let mut mutated = Character {
            name: i.to_string(),
            size: self.default_size,
            default_size: self.default_size,
            default_soak: 0,
            stats: self.base_stats,
            base_stats: self.base_stats,
            martial_ability: DEFAULT_MARTIAL_ABILITY,
            base_martial_ability: DEFAULT_MARTIAL_ABILITY,
            is_ability_puissant: false,
            is_enduring: false,
            weapon: self.weapon,
            armor: self.armor,
            virtues: kept,
        };
        let mut total = mutated.count_virtues();
        let remaining = POINTS_VIRTUES - total;
        let ghost frame = mutated;
        let ghost retained = mutated.virtues@;
        let mut j: u8 = 0;
        while j < remaining
            invariant
                j <= remaining,
                total + remaining - j <= POINTS_VIRTUES,
                total == virtues_cost(mutated.virtues@),
                virtues_valid(mutated.virtues@),
                same_but_virtues(mutated, frame),
                retained.len() <= mutated.virtues@.len(),
                mutated.virtues@.subrange(0, retained.len() as int) == retained,
                forall|k: int|
                    retained.len() <= k < mutated.virtues@.len() ==> #[trigger] mutated.virtues@[k]
                        == Virtue::ImprovedCharacteristics,
            decreases remaining - j,
        {
            if dice.below(NB_POSSIBLE_VIRTUES + 1) == 0 {
                proof {
                    lemma_add_valid(
                        mutated.stats,
                        mutated.virtues@,
                        Virtue::ImprovedCharacteristics,
                        total as int,
                    );
                }
                let ghost pre = mutated.virtues@;
                mutated.virtues.push(Virtue::ImprovedCharacteristics);
                total = total + 1;
                proof {
                    assert(mutated.virtues@.subrange(0, retained.len() as int) =~= pre.subrange(
                        0,
                        retained.len() as int,
                    ));
                    assert forall|k: int|
                        retained.len() <= k < mutated.virtues@.len() implies #[trigger] mutated.virtues@[k]
                            == Virtue::ImprovedCharacteristics by {
                        if k < pre.len() {
                            assert(mutated.virtues@[k] == pre[k]);
                        }
                    }
                }
            }
            j = j + 1;
        }
        let improved = occurrences(mutated.virtues.as_slice(), Virtue::ImprovedCharacteristics);
        proof {
            lemma_count_le_len(mutated.virtues@, Virtue::ImprovedCharacteristics);
        }
        let budget: u8 = BASE_STAT_POINTS + 3 * (improved as u8);
        let base = match self.base_stats.calculate_cost() {
            Ok(c) => {
                if c as i64 <= budget as i64 {
                    self.base_stats.mutate(mutation, budget, dice)
                } else {
                    Statistics::randomize(budget, dice)
                }
            },
            Err(_) => Statistics::randomize(budget, dice),
        };
        mutated.base_stats = base;
        mutated.stats = base;
        let ghost filled = mutated.virtues@;
        mutated.randomize_virtues(total, dice);
        proof {
            assert(vs.subrange(0, vs.len() as int) =~= vs);
            let kept_len = kept_of(vs, drops).len() as int;
            let m = filled.len() as int;
            assert(mutated.virtues@.subrange(0, m) == filled);
            assert(improved_then_drawn(mutated.base_stats, mutated.virtues@, kept_len, m)) by {
                assert forall|k: int| kept_len <= k < m implies #[trigger] mutated.virtues@[k]
                    == Virtue::ImprovedCharacteristics by {
                    assert(mutated.virtues@[k] == filled[k]);
                    assert(retained.len() == kept_len);
                }
            }
            assert(mutated.virtues@.subrange(0, retained.len() as int) =~= filled.subrange(
                0,
                retained.len() as int,
            ));
            lemma_valid_derivable(
                mutated.base_stats,
                mutated.default_size as int,
                mutated.base_martial_ability as int,
                mutated.virtues@,
            );
        }
        mutated.apply_virtues();
        mutated
    }

    /// A roll total: the stress die, a characteristic, a weapon value and the
    /// ability (doubled when exerting, two more when puissant).
    fn get_total(&self, stress_die: u64, stat: i128, weapon: i128, exert: bool) -> (r: i128)
        requires
            stress_die <= MAX_STRESS,
            i8::MIN <= stat <= u8::MAX,
            i8::MIN <= weapon <= u8::MAX,
        ensures
            r == stress_die + stat + weapon + ability_points(*self, exert),
    {
        let mut ability: i128 = self.martial_ability as i128;
        if exert {
            ability = ability + self.martial_ability as i128;
        }
        if self.is_ability_puissant {
            ability = ability + 2;
        }
        stress_die as i128 + stat + weapon + ability
    }

    /// The initiative total for the stress die `roll`: the die plus
    /// quickness and the weapon's initiative; a botch gives zero.
    pub fn init_from(&self, roll: StressDie) -> (r: i128)
        requires
            bounded_stress(roll),
        ensures
            r == init_value(*self, roll),
    {
        match roll {
            StressDie::BOTCH => 0,
            StressDie::DIE(stress_die) => stress_die as i128 + self.stats.qik as i128 + self.weapon.init as i128,
        }
    }

    /// The attack total for the stress die `roll`: the die plus dexterity,
    /// the weapon's attack and the ability; a botch gives zero.
    pub fn attack_from(&self, roll: StressDie) -> (r: i128)
        requires
            bounded_stress(roll),
        ensures
            r == attack_value(*self, roll),
    {
        match roll {
            StressDie::BOTCH => 0,
            StressDie::DIE(stress_die) => self.get_total(
                stress_die,
                self.stats.dex as i128,
                self.weapon.attack as i128,
                false,
            ),
        }
    }

    /// The defence total for the stress die `roll`: the die plus quickness,
    /// the weapon's defence and the ability; a botch gives zero.
    pub fn defence_from(&self, roll: StressDie) -> (r: i128)
        requires
            bounded_stress(roll),
        ensures
            r == defence_value(*self, roll),
    {
        match roll {
            StressDie::BOTCH => 0,
            StressDie::DIE(stress_die) => self.get_total(
                stress_die,
                self.stats.qik as i128,
                self.weapon.defence as i128,
                false,
            ),
        }
    }

    /// An initiative roll with a stress die of one botch die.
    pub fn roll_init(&self, dice: &mut Dice) -> (r: i128)
        ensures
            exists|roll: StressDie| combat_roll(roll) && r == init_value(*self, roll),
    {
        let roll = roll_stress_die(dice, 1);
        let r = self.init_from(roll);
        assert(combat_roll(roll) && r == init_value(*self, roll));
        r
    }

    /// An attack roll with a stress die of one botch die.
    pub fn get_total_attack(&self, dice: &mut Dice) -> (r: i128)
        ensures
            exists|roll: StressDie| combat_roll(roll) && r == attack_value(*self, roll),
    {
        let roll = roll_stress_die(dice, 1);
        let r = self.attack_from(roll);
        assert(combat_roll(roll) && r == attack_value(*self, roll));
        r
    }

    /// A defence roll with a stress die of one botch die.
    pub fn get_total_defence(&self, dice: &mut Dice) -> (r: i128)
        ensures
            exists|roll: StressDie| combat_roll(roll) && r == defence_value(*self, roll),
    {
        let roll = roll_stress_die(dice, 1);
        let r = self.defence_from(roll);
        assert(combat_roll(roll) && r == defence_value(*self, roll));
        r
    }
}

} // verus!
