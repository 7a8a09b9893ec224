use crate::dies::Dice;
use vstd::prelude::*;

verus! {

/// The eight characteristics of a combatant. The `intl` field holds
/// Intelligence.
#[derive(Debug, Clone, Copy, PartialEq, Eq, Structural)]
pub struct Statistics {
    pub str: i8,
    pub sta: i8,
    pub dex: i8,
    pub qik: i8,
    pub intl: i8,
    pub per: i8,
    pub pre: i8,
    pub com: i8,
}

/// The position of each characteristic, in field order.
pub const STR: usize = 0;
pub const STA: usize = 1;
pub const DEX: usize = 2;
pub const QIK: usize = 3;
pub const INT: usize = 4;
pub const PER: usize = 5;
pub const PRE: usize = 6;
pub const COM: usize = 7;

pub const NB_STATS: usize = 8;

/// How many rejected draws `randomize` tries before it settles for the
/// neutral vector.
pub const MAX_DRAWS: u32 = 10000;

/// How many picks in a row may fail to raise a characteristic before
/// `mutate` stops spending points.
pub const MAX_IDLE_PICKS: u8 = 5;

/// A characteristic value the cost table covers.
pub open spec fn valid_value(v: int) -> bool {
    -3 <= v <= 3
}

/// The point cost of one characteristic value.
pub open spec fn cost_of(v: int) -> int {
    if v == 3 {
        6
    } else if v == 2 {
        3
    } else if v == 1 {
        1
    } else if v == 0 {
        0
    } else if v == -1 {
        -1
    } else if v == -2 {
        -3
    } else {
        -6
    }
}

/// `v + k` stays in the table and its extra cost fits in `remaining`.
pub open spec fn can_raise(v: int, k: int, remaining: int) -> bool {
    valid_value(v + k) && cost_of(v + k) - cost_of(v) <= remaining
}

/// The largest raise of one, two or three steps that `remaining` points pay
/// for, or zero when not even one step is affordable.
pub open spec fn max_increase(v: int, remaining: int) -> int {
    if !can_raise(v, 1, remaining) {
        0
    } else if !can_raise(v, 2, remaining) {
        1
    } else if !can_raise(v, 3, remaining) {
        2
    } else {
        3
    }
}

/// Spending on `s` has stopped under a budget of `points`: the budget is
/// spent exactly, or some characteristic cannot be raised by the points left.
pub open spec fn settled(s: Statistics, points: int) -> bool {
    s.total_cost() == points || exists|i: int|
        0 <= i < 8 && max_increase(#[trigger] s.at(i), points - s.total_cost()) == 0
}

/// The unit vector of characteristic `i`.
pub open spec fn unit(i: int) -> Statistics {
    Statistics {
        str: if i == 0 { 1 } else { 0 },
        sta: if i == 1 { 1 } else { 0 },
        dex: if i == 2 { 1 } else { 0 },
        qik: if i == 3 { 1 } else { 0 },
        intl: if i == 4 { 1 } else { 0 },
        per: if i == 5 { 1 } else { 0 },
        pre: if i == 6 { 1 } else { 0 },
        com: if i == 7 { 1 } else { 0 },
    }
}

/// `s` names one of the eight characteristics.
pub open spec fn is_unit(s: Statistics) -> bool {
    exists|i: int| 0 <= i < 8 && s == unit(i)
}

impl Statistics {
    /// Characteristic `i`, in field order.
    pub open spec fn at(self, i: int) -> int {
        if i == 0 {
            self.str as int
        } else if i == 1 {
            self.sta as int
        } else if i == 2 {
            self.dex as int
        } else if i == 3 {
            self.qik as int
        } else if i == 4 {
            self.intl as int
        } else if i == 5 {
            self.per as int
        } else if i == 6 {
            self.pre as int
        } else {
            self.com as int
        }
    }

    /// `self` with characteristic `i` replaced by `v`.
    pub open spec fn with(self, i: int, v: i8) -> Statistics {
        if i == 0 {
            Statistics { str: v, ..self }
        } else if i == 1 {
            Statistics { sta: v, ..self }
        } else if i == 2 {
            Statistics { dex: v, ..self }
        } else if i == 3 {
            Statistics { qik: v, ..self }
        } else if i == 4 {
            Statistics { intl: v, ..self }
        } else if i == 5 {
            Statistics { per: v, ..self }
        } else if i == 6 {
            Statistics { pre: v, ..self }
        } else {
            Statistics { com: v, ..self }
        }
    }

    /// Every characteristic lies within the cost table.
    pub open spec fn in_range(self) -> bool {
        &&& valid_value(self.str as int)
        &&& valid_value(self.sta as int)
        &&& valid_value(self.dex as int)
        &&& valid_value(self.qik as int)
        &&& valid_value(self.intl as int)
        &&& valid_value(self.per as int)
        &&& valid_value(self.pre as int)
        &&& valid_value(self.com as int)
    }

    /// The summed point cost of the eight characteristics.
    pub open spec fn total_cost(self) -> int {
        cost_of(self.str as int) + cost_of(self.sta as int) + cost_of(self.dex as int)
            + cost_of(self.qik as int) + cost_of(self.intl as int) + cost_of(self.per as int)
            + cost_of(self.pre as int) + cost_of(self.com as int)
    }

    /// All eight characteristics at zero.
    pub fn new() -> (r: Self)
        ensures
            forall|i: int| 0 <= i < 8 ==> r.at(i) == 0,
            r.in_range(),
            r.total_cost() == 0,
    {
        Self { str: 0, sta: 0, dex: 0, qik: 0, intl: 0, per: 0, pre: 0, com: 0 }
    }

    /// The unit vector of characteristic `index` (one of `STR` .. `COM`).
    pub fn unit(index: usize) -> (r: Self)
        requires
            index < NB_STATS,
        ensures
            r == unit(index as int),
            is_unit(r),
    {
        let r = Self {
            str: if index == STR { 1 } else { 0 },
            sta: if index == STA { 1 } else { 0 },
            dex: if index == DEX { 1 } else { 0 },
            qik: if index == QIK { 1 } else { 0 },
            intl: if index == INT { 1 } else { 0 },
            per: if index == PER { 1 } else { 0 },
            pre: if index == PRE { 1 } else { 0 },
            com: if index == COM { 1 } else { 0 },
        };
        proof {
            assert(r == unit(index as int));
        }
        r
    }

    /// Characteristic `i`, in field order.
    pub fn get(&self, i: usize) -> (r: i8)
        requires
            i < NB_STATS,
        ensures
            r == self.at(i as int),
    {
        if i == 0 {
            self.str
        } else if i == 1 {
            self.sta
        } else if i == 2 {
            self.dex
        } else if i == 3 {
            self.qik
        } else if i == 4 {
            self.intl
        } else if i == 5 {
            self.per
        } else if i == 6 {
            self.pre
        } else {
            self.com
        }
    }

    /// Sets characteristic `i` to `v` and leaves the others.
    pub fn set(&mut self, i: usize, v: i8)
        requires
            i < NB_STATS,
        ensures
            *final(self) == old(self).with(i as int, v),
    {
        if i == 0 {
            self.str = v;
        } else if i == 1 {
            self.sta = v;
        } else if i == 2 {
            self.dex = v;
        } else if i == 3 {
            self.qik = v;
        } else if i == 4 {
            self.intl = v;
        } else if i == 5 {
            self.per = v;
        } else if i == 6 {
            self.pre = v;
        } else {
            self.com = v;
        }
    }
}


impl Statistics {
    /// The point cost of one characteristic value, or an error for a value
    /// outside the table.
    pub fn get_cost(value: i8) -> (r: Result<i8, &'static str>)
        ensures
            r is Ok <==> valid_value(value as int),
            r is Ok ==> r->Ok_0 == cost_of(value as int),
    {
        match value {
            3 => Ok(6),
            2 => Ok(3),
            1 => Ok(1),
            0 => Ok(0),
            -1 => Ok(-1),
            -2 => Ok(-3),
            -3 => Ok(-6),
            _ => Err("A score cannot be that high at creation"),
        }
    }

    /// The summed cost of the eight characteristics, or an error when one of
    /// them lies outside the table.
    pub fn calculate_cost(&self) -> (r: Result<i8, &'static str>)
        ensures
            r is Ok <==> self.in_range(),
            r is Ok ==> r->Ok_0 == self.total_cost(),
    {
        let mut total: i8 = 0;
        let mut i: usize = 0;
        while i < NB_STATS
            invariant
                i <= NB_STATS,
                forall|j: int| 0 <= j < i ==> valid_value(self.at(j)),
                total == partial_cost(*self, i as int),
                -6 * i <= total <= 6 * i,
            decreases NB_STATS - i,
        {
            match Self::get_cost(self.get(i)) {
                Ok(c) => {
                    total = total + c;
                },
                Err(e) => {
                    return Err(e);
                },
            }
            i = i + 1;
        }
        proof {
            reveal_with_fuel(partial_cost, 9);
        }
        Ok(total)
    }

    /// The value of the characteristic that the unit vector `cons` names.
    pub fn retrieve_from_static(&self, cons: &Statistics) -> (r: i8)
        requires
            is_unit(*cons),
        ensures
            forall|i: int| 0 <= i < 8 && *cons == unit(i) ==> r == self.at(i),
    {
        if cons.str == 1 {
            self.str
        } else if cons.sta == 1 {
            self.sta
        } else if cons.dex == 1 {
            self.dex
        } else if cons.qik == 1 {
            self.qik
        } else if cons.intl == 1 {
            self.intl
        } else if cons.per == 1 {
            self.per
        } else if cons.pre == 1 {
            self.pre
        } else {
            self.com
        }
    }

    /// Draws every characteristic uniformly from the table's range.
    fn set_stats_at_random(&mut self, dice: &mut Dice)
        ensures
            final(self).in_range(),
    {
        let mut i: usize = 0;
        while i < NB_STATS
            invariant
                i <= NB_STATS,
                forall|j: int| 0 <= j < i ==> valid_value(self.at(j)),
            decreases NB_STATS - i,
        {
            let v = dice.below(7) as i8 - 3;
            let ghost before = *self;
            self.set(i, v);
            proof {
                lemma_with(before, i as int, v);
            }
            i = i + 1;
        }
        proof {
            lemma_in_range(*self);
        }
    }

    /// Random characteristics whose total cost lies in `[0, points]`, by
    /// rejection sampling; after `MAX_DRAWS` rejected draws the neutral
    /// vector is kept.
    pub fn randomize(points: u8, dice: &mut Dice) -> (r: Self)
        ensures
            r.in_range(),
            0 <= r.total_cost() <= points,
    {
        let mut stats = Self::new();
        let mut attempt: u32 = 0;
        while attempt < MAX_DRAWS
            invariant
                attempt <= MAX_DRAWS,
            decreases MAX_DRAWS - attempt,
        {
            stats.set_stats_at_random(dice);
            match stats.calculate_cost() {
                Ok(c) => {
                    if 0 <= c && c as i64 <= points as i64 {
                        return stats;
                    }
                },
                Err(_) => {},
            }
            attempt = attempt + 1;
        }
        Self::new()
    }

    /// A mutated copy: each characteristic is lowered with chance `mutation`
    /// in 100, then randomly picked characteristics are raised as far as the
    /// points left allow, until the `points` budget is spent exactly or
    /// `MAX_IDLE_PICKS` picks in a row raise nothing.
    pub fn mutate(&self, mutation: u32, points: u8, dice: &mut Dice) -> (r: Self)
        requires
            self.in_range(),
            mutation <= 100,
        ensures
            r.in_range(),
            self.total_cost() <= points ==> r.total_cost() <= points,
            mutation == 0 ==> forall|i: int| 0 <= i < 8 ==> #[trigger] r.at(i) >= self.at(i),
            settled(r, points as int),
    {
        let mut stats = *self;
        let mut i: usize = 0;
        while i < NB_STATS
            invariant
                i <= NB_STATS,
                mutation <= 100,
                stats.in_range(),
                stats.total_cost() <= self.total_cost(),
                mutation == 0 ==> stats == *self,
            decreases NB_STATS - i,
        {
            if dice.ratio(mutation, 100) {
                let v = stats.get(i);
                let decrease = Self::get_valid_decrease(&v, dice);
                proof {
                    lemma_with_cost(stats, i as int, (v - decrease) as i8);
                }
                stats.set(i, v - decrease);
            }
            i = i + 1;
        }
        let mut current_cost: i64 = match stats.calculate_cost() {
            Ok(c) => c as i64,
            Err(_) => 0,
        };
        let mut idle: u8 = 0;
        loop
            invariant
                stats.in_range(),
                current_cost == stats.total_cost(),
                idle <= MAX_IDLE_PICKS,
                self.total_cost() <= points ==> current_cost <= points,
                mutation == 0 ==> forall|j: int| 0 <= j < 8 ==> #[trigger] stats.at(j) >= self.at(j),
                idle > 0 ==> exists|j: int|
                    0 <= j < 8 && max_increase(#[trigger] stats.at(j), points - current_cost) == 0,
            decreases slack(points - current_cost) * 6 + MAX_IDLE_PICKS - idle,
        {
            let remaining = points as i64 - current_cost;
            if remaining == 0 || idle == MAX_IDLE_PICKS {
                return stats;
            }
            let index = dice.below(NB_STATS);
            let v = stats.get(index);
            let increase = Self::get_valid_increase(&v, remaining, 3, dice);
            if increase == 0 {
                assert(max_increase(stats.at(index as int), points - current_cost) == 0);
                idle = idle + 1;
            } else {
                idle = 0;
                proof {
                    lemma_raise(v as int, increase as int, remaining as int);
                    lemma_with_cost(stats, index as int, (v + increase) as i8);
                    lemma_with(stats, index as int, (v + increase) as i8);
                }
                stats.set(index, v + increase);
                current_cost = match stats.calculate_cost() {
                    Ok(c) => c as i64,
                    Err(_) => current_cost,
                };
            }
        }
    }

    /// A random decrease of zero to three steps that keeps `stat` in the
    /// table; each further step is taken with chance 3 in 10.
    fn get_valid_decrease(stat: &i8, dice: &mut Dice) -> (r: i8)
        requires
            valid_value(*stat as int),
        ensures
            0 <= r <= 3,
            valid_value(*stat - r),
    {
        let v = *stat;
        if v - 1 >= -3 && dice.ratio(3, 10) {
            if v - 2 >= -3 && dice.ratio(3, 10) {
                if v - 3 >= -3 && dice.ratio(3, 10) {
                    3
                } else {
                    2
                }
            } else {
                1
            }
        } else {
            0
        }
    }

    /// The increase of `stat` that `remaining_points` can pay for: one step
    /// whenever one is affordable, a second and a third each with chance one
    /// in `denominator` when affordable.
    pub fn get_valid_increase(stat: &i8, remaining_points: i64, denominator: u32, dice: &mut Dice) -> (r: i8)
        requires
            valid_value(*stat as int),
            denominator > 0,
        ensures
            0 <= r <= max_increase(*stat as int, remaining_points as int),
            r == 0 <==> max_increase(*stat as int, remaining_points as int) == 0,
            denominator == 1 ==> r == max_increase(*stat as int, remaining_points as int),
    {
        let v = *stat;
        if Self::affordable(v, 1, remaining_points) {
            if dice.ratio(1, denominator) && Self::affordable(v, 2, remaining_points) {
                if dice.ratio(1, denominator) && Self::affordable(v, 3, remaining_points) {
                    3
                } else {
                    2
                }
            } else {
                1
            }
        } else {
            0
        }
    }

    /// Whether raising `v` by `k` stays in the table and costs at most
    /// `remaining` points.
    fn affordable(v: i8, k: i8, remaining: i64) -> (r: bool)
        requires
            valid_value(v as int),
            1 <= k <= 3,
        ensures
            r == can_raise(v as int, k as int, remaining as int),
    {
        if v + k > 3 {
            return false;
        }
        match (Self::get_cost(v), Self::get_cost(v + k)) {
            (Ok(before), Ok(after)) => (after as i64 - before as i64) <= remaining,
            _ => false,
        }
    }
}

proof fn lemma_with(s: Statistics, i: int, v: i8)
    requires
        0 <= i < 8,
    ensures
        s.with(i, v).at(i) == v,
        forall|j: int| 0 <= j < 8 && j != i ==> #[trigger] s.with(i, v).at(j) == s.at(j),
{
}

proof fn lemma_in_range(s: Statistics)
    ensures
        s.in_range() <==> forall|j: int| 0 <= j < 8 ==> valid_value(#[trigger] s.at(j)),
{
    if forall|j: int| 0 <= j < 8 ==> valid_value(#[trigger] s.at(j)) {
        assert(valid_value(s.at(0)) && valid_value(s.at(1)) && valid_value(s.at(2)) && valid_value(s.at(3)));
        assert(valid_value(s.at(4)) && valid_value(s.at(5)) && valid_value(s.at(6)) && valid_value(s.at(7)));
    }
}

/// The unused part of a budget.
pub open spec fn slack(remaining: int) -> nat {
    if remaining > 0 {
        remaining as nat
    } else {
        0
    }
}

proof fn lemma_with_cost(s: Statistics, i: int, v: i8)
    requires
        0 <= i < 8,
        s.in_range(),
        valid_value(v as int),
    ensures
        s.with(i, v).in_range(),
        s.with(i, v).total_cost() == s.total_cost() - cost_of(s.at(i)) + cost_of(v as int),
        v <= s.at(i) ==> cost_of(v as int) <= cost_of(s.at(i)),
        v > s.at(i) ==> cost_of(v as int) - cost_of(s.at(i)) >= 1,
{
}

proof fn lemma_raise(v: int, k: int, remaining: int)
    requires
        valid_value(v),
        1 <= k <= max_increase(v, remaining),
    ensures
        can_raise(v, k, remaining),
        cost_of(v + k) - cost_of(v) >= 1,
{
}

/// Two vectors that agree on every characteristic are equal.
pub proof fn lemma_at_ext(a: Statistics, b: Statistics)
    requires
        forall|i: int| 0 <= i < 8 ==> #[trigger] a.at(i) == b.at(i),
    ensures
        a == b,
{
    assert(a.at(0) == b.at(0) && a.at(1) == b.at(1) && a.at(2) == b.at(2) && a.at(3) == b.at(3));
    assert(a.at(4) == b.at(4) && a.at(5) == b.at(5) && a.at(6) == b.at(6) && a.at(7) == b.at(7));
}

/// The cost of the first `n` characteristics.
pub open spec fn partial_cost(s: Statistics, n: int) -> int
    decreases n,
{
    if n <= 0 {
        0
    } else {
        partial_cost(s, n - 1) + cost_of(s.at(n - 1))
    }
}

/// Adds `o` to `stats`, characteristic by characteristic.
pub fn add_ref(stats: &mut Statistics, o: &Statistics)
    requires
        forall|i: int| 0 <= i < 8 ==> i8::MIN <= #[trigger] old(stats).at(i) + o.at(i) <= i8::MAX,
    ensures
        forall|i: int| 0 <= i < 8 ==> #[trigger] final(stats).at(i) == old(stats).at(i) + o.at(i),
{
    proof {
        assert(i8::MIN <= stats.at(0) + o.at(0) <= i8::MAX);
        assert(i8::MIN <= stats.at(1) + o.at(1) <= i8::MAX);
        assert(i8::MIN <= stats.at(2) + o.at(2) <= i8::MAX);
        assert(i8::MIN <= stats.at(3) + o.at(3) <= i8::MAX);
        assert(i8::MIN <= stats.at(4) + o.at(4) <= i8::MAX);
        assert(i8::MIN <= stats.at(5) + o.at(5) <= i8::MAX);
        assert(i8::MIN <= stats.at(6) + o.at(6) <= i8::MAX);
        assert(i8::MIN <= stats.at(7) + o.at(7) <= i8::MAX);
    }
    stats.str = stats.str + o.str;
    stats.sta = stats.sta + o.sta;
    stats.dex = stats.dex + o.dex;
    stats.qik = stats.qik + o.qik;
    stats.intl = stats.intl + o.intl;
    stats.per = stats.per + o.per;
    stats.pre = stats.pre + o.pre;
    stats.com = stats.com + o.com;
}

} // verus!
